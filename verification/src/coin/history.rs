//! Reconstruction of balance histories from pages of events.
use crate::coin::models::ft_rows_view;
use crate::coin::models::near_rows_view;
use crate::coin::models::FtHistoryInfo;
use crate::coin::models::FtHistoryInfoView;
use crate::coin::models::NearHistoryInfo;
use crate::coin::models::NearHistoryInfoView;
use crate::coin::schemas::coin_items_view;
use crate::coin::schemas::near_items_view;
use crate::coin::schemas::CoinHistoryItem;
use crate::coin::schemas::CoinHistoryItemView;
use crate::coin::schemas::NearHistoryItem;
use crate::coin::schemas::NearHistoryItemView;
use crate::errors::ErrorKind;
use crate::errors::InternalFault;
use crate::types::account_id::extract_account_id;
use crate::types::account_id::extract_account_id_spec;
use crate::types::account_id::is_account_id;
use crate::types::account_id::AccountId;
use crate::types::numeric::to_i128;
use crate::types::numeric::to_i128_spec;
use crate::types::numeric::to_u128;
use crate::types::numeric::to_u128_spec;
use crate::types::numeric::to_u64;
use crate::types::numeric::to_u64_spec;
use crate::types::query_params::HistoryPagination;
use vstd::prelude::*;

verus! {

/// The item that a native-coin row gives, or the first failure on the way:
/// the counterparty, the two changes and their sum, the two balances and
/// their sum, the timestamp, in this order.
pub open spec fn near_item_spec(info: NearHistoryInfoView) -> Result<
    NearHistoryItemView,
    ErrorKind,
> {
    if info.involved_account_id is Some && !is_account_id(info.involved_account_id->Some_0) {
        Err(ErrorKind::AccountAddressInvalid)
    } else {
        match to_i128_spec(info.delta_available_balance) {
            Err(e) => Err(e),
            Ok(delta_available) => match to_i128_spec(info.delta_staked_balance) {
                Err(e) => Err(e),
                Ok(delta_staked) => if !(i128::MIN <= delta_available + delta_staked
                    <= i128::MAX) {
                    Err(ErrorKind::OutOfRange)
                } else {
                    match to_u128_spec(info.available_balance) {
                        Err(e) => Err(e),
                        Ok(available) => match to_u128_spec(info.staked_balance) {
                            Err(e) => Err(e),
                            Ok(staked) => if available + staked > u128::MAX {
                                Err(ErrorKind::OutOfRange)
                            } else {
                                match to_u64_spec(info.block_timestamp_nanos) {
                                    Err(e) => Err(e),
                                    Ok(timestamp) => Ok(
                                        NearHistoryItemView {
                                            involved_account_id: info.involved_account_id,
                                            delta_balance: (delta_available
                                                + delta_staked) as i128,
                                            delta_available_balance: delta_available,
                                            delta_staked_balance: delta_staked,
                                            total_balance: (available + staked) as u128,
                                            available_balance: available,
                                            staked_balance: staked,
                                            cause: info.cause,
                                            block_timestamp_nanos: timestamp,
                                        },
                                    ),
                                }
                            },
                        },
                    }
                },
            },
        }
    }
}

/// The items that a page of native-coin rows gives, one for each row and in
/// the rows' order, or the failure of the first row that has one.
pub open spec fn near_history_spec(rows: Seq<NearHistoryInfoView>) -> Result<
    Seq<NearHistoryItemView>,
    ErrorKind,
>
    decreases rows.len(),
{
    if rows.len() == 0 {
        Ok(Seq::empty())
    } else {
        match near_history_spec(rows.drop_last()) {
            Err(e) => Err(e),
            Ok(items) => match near_item_spec(rows.last()) {
                Err(e) => Err(e),
                Ok(item) => Ok(items.push(item)),
            },
        }
    }
}

/// A failure among the first rows of a page is the failure of the page.
pub proof fn lemma_near_history_prefix(rows: Seq<NearHistoryInfoView>, n: int)
    requires
        0 <= n <= rows.len(),
        near_history_spec(rows.take(n)) is Err,
    ensures
        near_history_spec(rows) == near_history_spec(rows.take(n)),
    decreases rows.len(),
{
    if n == rows.len() {
        assert(rows.take(n) =~= rows);
    } else {
        assert(rows.drop_last().take(n) =~= rows.take(n));
        lemma_near_history_prefix(rows.drop_last(), n);
    }
}

impl NearHistoryItem {
    /// Projects one native-coin row: converts its numbers, reads its
    /// counterparty, and adds the available and the staked part to the change
    /// and to the balance of the whole.
    ///
    /// Fails with `AccountAddressInvalid` where the counterparty is not a
    /// well-formed identifier, with `MalformedNumeric` or `OutOfRange` where a
    /// number does not convert, and with `OutOfRange` where a sum does not fit
    /// 128 bits; where several apply, with the first in the order of
    /// [`near_item_spec`].
    pub fn try_from(info: NearHistoryInfo) -> (r: Result<NearHistoryItem, ErrorKind>)
        ensures
            match r {
                Ok(item) => near_item_spec(info@) == Ok::<NearHistoryItemView, ErrorKind>(item@),
                Err(e) => near_item_spec(info@) == Err::<NearHistoryItemView, ErrorKind>(e),
            },
    {
        let involved_account_id = match &info.involved_account_id {
            Some(text) => match AccountId::from_str(text.as_str()) {
                Ok(id) => Some(id),
                Err(e) => {
                    return Err(e);
                },
            },
            None => None,
        };
        let delta_available_balance = match to_i128(info.delta_available_balance.as_str()) {
            Ok(v) => v,
            Err(e) => {
                return Err(e);
            },
        };
        let delta_staked_balance = match to_i128(info.delta_staked_balance.as_str()) {
            Ok(v) => v,
            Err(e) => {
                return Err(e);
            },
        };
        let delta_balance = match delta_available_balance.checked_add(delta_staked_balance) {
            Some(v) => v,
            None => {
                return Err(ErrorKind::OutOfRange);
            },
        };
        let available_balance = match to_u128(info.available_balance.as_str()) {
            Ok(v) => v,
            Err(e) => {
                return Err(e);
            },
        };
        let staked_balance = match to_u128(info.staked_balance.as_str()) {
            Ok(v) => v,
            Err(e) => {
                return Err(e);
            },
        };
        let total_balance = match available_balance.checked_add(staked_balance) {
            Some(v) => v,
            None => {
                return Err(ErrorKind::OutOfRange);
            },
        };
        let block_timestamp_nanos = match to_u64(info.block_timestamp_nanos.as_str()) {
            Ok(v) => v,
            Err(e) => {
                return Err(e);
            },
        };
        Ok(
            NearHistoryItem {
                involved_account_id,
                delta_balance,
                delta_available_balance,
                delta_staked_balance,
                total_balance,
                available_balance,
                staked_balance,
                cause: info.cause,
                block_timestamp_nanos,
            },
        )
    }
}

/// Projects a page of native-coin rows into history items, one for each row
/// and in the rows' order. No balance is walked: each row carries its own.
///
/// Fails with the failure of the first row that has one, and then returns no
/// item at all.
pub fn get_near_history(history_info: Vec<NearHistoryInfo>) -> (r: Result<
    Vec<NearHistoryItem>,
    ErrorKind,
>)
    ensures
        match r {
            Ok(items) => near_history_spec(near_rows_view(history_info@)) == Ok::<
                Seq<NearHistoryItemView>,
                ErrorKind,
            >(near_items_view(items@)),
            Err(e) => near_history_spec(near_rows_view(history_info@)) == Err::<
                Seq<NearHistoryItemView>,
                ErrorKind,
            >(e),
        },
        r is Ok ==> r->Ok_0@.len() == history_info@.len(),
        r is Ok ==> forall|i: int|
            0 <= i < history_info@.len() ==> near_item_spec(#[trigger] history_info@[i]@) == Ok::<
                NearHistoryItemView,
                ErrorKind,
            >(r->Ok_0@[i]@),
{
    let ghost rows = near_rows_view(history_info@);
    let mut result: Vec<NearHistoryItem> = Vec::new();
    proof {
        assert(rows.take(0) =~= Seq::<NearHistoryInfoView>::empty());
        assert(near_items_view(result@) =~= Seq::<NearHistoryItemView>::empty());
    }
    for history in iter: history_info.into_iter()
        invariant
            iter.seq() == history_info@,
            rows == near_rows_view(history_info@),
            result@.len() == iter.index(),
            near_history_spec(rows.take(iter.index() as int)) == Ok::<
                Seq<NearHistoryItemView>,
                ErrorKind,
            >(near_items_view(result@)),
            forall|i: int|
                0 <= i < iter.index() ==> near_item_spec(#[trigger] history_info@[i]@) == Ok::<
                    NearHistoryItemView,
                    ErrorKind,
                >(result@[i]@),
    {
        let ghost done = iter.index() as int;
        let ghost before = near_items_view(result@);
        proof {
            assert(rows.take(done + 1).drop_last() =~= rows.take(done));
            assert(rows.take(done + 1).last() == history@);
        }
        match NearHistoryItem::try_from(history) {
            Ok(item) => {
                result.push(item);
                assert(near_items_view(result@) =~= before.push(item@));
            },
            Err(e) => {
                proof {
                    lemma_near_history_prefix(rows, done + 1);
                }
                return Err(e);
            },
        }
    }
    assert(rows.take(rows.len() as int) =~= rows);
    Ok(result)
}

/// The side that an account takes in a token event.
#[derive(Clone, Copy, Debug, PartialEq, Eq, Structural)]
pub enum Role {
    /// The account gave the amount: the event lowered its balance.
    Sender,
    /// The account got the amount: the event raised its balance.
    Receiver,
    /// The account is on neither side: the event is not one of its own.
    Inconsistent,
}

/// The side that `subject` takes in an event between `old_owner_id` and
/// `new_owner_id`. An account that sends to itself counts as the sender.
pub open spec fn role_of(
    subject: Seq<char>,
    old_owner_id: Seq<char>,
    new_owner_id: Seq<char>,
) -> Role {
    if subject == old_owner_id {
        Role::Sender
    } else if subject == new_owner_id {
        Role::Receiver
    } else {
        Role::Inconsistent
    }
}

/// By how much an event of `amount` changes the balance of the account that
/// takes `role` in it.
pub open spec fn signed_delta(role: Role, amount: int) -> int {
    if role is Sender {
        -amount
    } else {
        amount
    }
}

/// The text that names the other side of `event`, for the account that takes
/// `role` in it.
pub open spec fn counterparty(role: Role, event: FtHistoryInfoView) -> Seq<char> {
    if role is Sender {
        event.new_owner_id
    } else {
        event.old_owner_id
    }
}

/// The balance before an event, from the balance after it and the change it
/// made. A balance below zero breaks the invariant of the ledger; one above
/// `u128::MAX` cannot be held.
pub open spec fn balance_before_spec(balance_after: u128, delta: i128) -> Result<u128, ErrorKind> {
    let before = balance_after - delta;
    if before < 0 {
        Err(ErrorKind::InternalError(InternalFault::NegativeBalance))
    } else if before > u128::MAX {
        Err(ErrorKind::OutOfRange)
    } else {
        Ok(before as u128)
    }
}

/// The balance of an account on both sides of one event.
#[derive(Clone, Copy, Debug, PartialEq, Eq, Structural)]
pub struct BalanceSnapshot {
    /// The balance right after the event.
    pub balance_after: u128,
    /// The balance right before the event.
    pub balance_before: u128,
    /// The change that the event made.
    pub delta: i128,
}

impl BalanceSnapshot {
    /// Whether the change is the difference of the two balances.
    pub open spec fn wf(&self) -> bool {
        self.delta == self.balance_after - self.balance_before
    }

    /// Steps back over one event: from the balance after it and the change
    /// it made to the balance before it.
    ///
    /// Fails with `InternalError(NegativeBalance)` where the balance before
    /// would be negative, and with `OutOfRange` where it would exceed
    /// `u128::MAX`. Nothing is clamped.
    pub fn undo(balance_after: u128, delta: i128) -> (r: Result<BalanceSnapshot, ErrorKind>)
        ensures
            match r {
                Ok(snapshot) => {
                    &&& balance_before_spec(balance_after, delta) == Ok::<u128, ErrorKind>(
                        snapshot.balance_before,
                    )
                    &&& snapshot.balance_after == balance_after
                    &&& snapshot.delta == delta
                    &&& snapshot.wf()
                },
                Err(e) => balance_before_spec(balance_after, delta) == Err::<u128, ErrorKind>(e),
            },
    {
        if delta >= 0 {
            match balance_after.checked_sub(delta as u128) {
                Some(balance_before) => Ok(BalanceSnapshot { balance_after, balance_before, delta }),
                None => Err(ErrorKind::InternalError(InternalFault::NegativeBalance)),
            }
        } else {
            let raise: u128 = if delta == i128::MIN {
                i128::MAX as u128 + 1
            } else {
                (-delta) as u128
            };
            match balance_after.checked_add(raise) {
                Some(balance_before) => Ok(BalanceSnapshot { balance_after, balance_before, delta }),
                None => Err(ErrorKind::OutOfRange),
            }
        }
    }
}

impl CoinHistoryItem {
    /// The balances on both sides of the event of this item.
    ///
    /// Fails as [`BalanceSnapshot::undo`] does; on an item that
    /// [`get_ft_history`] returned it succeeds.
    pub fn snapshot(&self) -> (r: Result<BalanceSnapshot, ErrorKind>)
        ensures
            match r {
                Ok(snapshot) => {
                    &&& balance_before_spec(self.balance, self.delta_balance) == Ok::<
                        u128,
                        ErrorKind,
                    >(snapshot.balance_before)
                    &&& snapshot.balance_after == self.balance
                    &&& snapshot.delta == self.delta_balance
                    &&& snapshot.wf()
                },
                Err(e) => balance_before_spec(self.balance, self.delta_balance) == Err::<
                    u128,
                    ErrorKind,
                >(e),
            },
    {
        BalanceSnapshot::undo(self.balance, self.delta_balance)
    }
}

/// The item that `event` gives for the account `subject`, which held
/// `balance` right after it, or the first failure on the way: the amount, the
/// side of the account, the range of the change, the counterparty, the
/// balance before the event, the timestamp, the height, in this order.
pub open spec fn ft_item_spec(subject: Seq<char>, balance: u128, event: FtHistoryInfoView) -> Result<
    CoinHistoryItemView,
    ErrorKind,
> {
    match to_i128_spec(event.amount) {
        Err(e) => Err(e),
        Ok(amount) => {
            let role = role_of(subject, event.old_owner_id, event.new_owner_id);
            let delta = signed_delta(role, amount as int);
            if role is Inconsistent {
                Err(ErrorKind::InternalError(InternalFault::NotSenderOrReceiver))
            } else if delta > i128::MAX {
                Err(ErrorKind::OutOfRange)
            } else {
                match extract_account_id_spec(counterparty(role, event)) {
                    Err(e) => Err(e),
                    Ok(involved) => match balance_before_spec(balance, delta as i128) {
                        Err(e) => Err(e),
                        Ok(_) => match to_u64_spec(event.block_timestamp) {
                            Err(e) => Err(e),
                            Ok(timestamp) => match to_u64_spec(event.block_height) {
                                Err(e) => Err(e),
                                Ok(height) => Ok(
                                    CoinHistoryItemView {
                                        action_kind: event.event_kind,
                                        involved_account_id: involved,
                                        delta_balance: delta as i128,
                                        balance: balance,
                                        block_timestamp_nanos: timestamp,
                                        block_height: height,
                                    },
                                ),
                            },
                        },
                    },
                }
            }
        },
    }
}

/// Where a backward walk stands: the items of the events it has passed, and
/// the balance that the account held before the oldest of them.
pub struct WalkView {
    pub items: Seq<CoinHistoryItemView>,
    pub running_balance: u128,
}

/// The walk from `anchor`, the balance right after the newest event, back
/// over `events`, which run from the newest to the oldest: each event gives
/// its item at the running balance and lowers or raises that balance to what
/// it was before the event. The walk fails with the first failure of an
/// event, and with `InternalError(PageOrder)` at the first event that is
/// younger than the one before it.
pub open spec fn walk_spec(subject: Seq<char>, anchor: u128, events: Seq<FtHistoryInfoView>) -> Result<
    WalkView,
    ErrorKind,
>
    decreases events.len(),
{
    if events.len() == 0 {
        Ok(WalkView { items: Seq::empty(), running_balance: anchor })
    } else {
        match walk_spec(subject, anchor, events.drop_last()) {
            Err(e) => Err(e),
            Ok(walk) => match ft_item_spec(subject, walk.running_balance, events.last()) {
                Err(e) => Err(e),
                Ok(item) => if walk.items.len() > 0 && walk.items.last().block_timestamp_nanos
                    < item.block_timestamp_nanos {
                    Err(ErrorKind::InternalError(InternalFault::PageOrder))
                } else {
                    Ok(
                        WalkView {
                            items: walk.items.push(item),
                            running_balance: (item.balance - item.delta_balance) as u128,
                        },
                    )
                },
            },
        }
    }
}

/// What [`get_ft_history`] returns, each item taken by its view.
pub open spec fn ft_history_spec(
    subject: Seq<char>,
    anchor: u128,
    events: Seq<FtHistoryInfoView>,
) -> Result<Seq<CoinHistoryItemView>, ErrorKind> {
    match walk_spec(subject, anchor, events) {
        Ok(walk) => Ok(walk.items),
        Err(e) => Err(e),
    }
}

/// Whether `items` is the balance history that `events` give for `subject`
/// from `anchor`: one item for each event; the newest item at the anchor;
/// each item the outcome of its event at the balance it reports; each balance
/// the one before the event that precedes it in the page; no event younger
/// than the one that precedes it.
pub open spec fn is_history_of(
    subject: Seq<char>,
    anchor: u128,
    events: Seq<FtHistoryInfoView>,
    items: Seq<CoinHistoryItemView>,
) -> bool {
    &&& items.len() == events.len()
    &&& items.len() > 0 ==> items[0].balance == anchor
    &&& forall|i: int|
        0 <= i < items.len() ==> ft_item_spec(subject, (#[trigger] items[i]).balance, events[i])
            == Ok::<CoinHistoryItemView, ErrorKind>(items[i])
    &&& forall|i: int|
        0 < i < items.len() ==> (#[trigger] items[i]).balance == items[i - 1].balance - items[i
            - 1].delta_balance
    &&& forall|i: int|
        0 < i < items.len() ==> (#[trigger] items[i]).block_timestamp_nanos <= items[i
            - 1].block_timestamp_nanos
}

/// A failure among the first events of a page is the failure of the page.
pub proof fn lemma_walk_prefix(
    subject: Seq<char>,
    anchor: u128,
    events: Seq<FtHistoryInfoView>,
    n: int,
)
    requires
        0 <= n <= events.len(),
        walk_spec(subject, anchor, events.take(n)) is Err,
    ensures
        walk_spec(subject, anchor, events) == walk_spec(subject, anchor, events.take(n)),
    decreases events.len(),
{
    if n == events.len() {
        assert(events.take(n) =~= events);
    } else {
        assert(events.drop_last().take(n) =~= events.take(n));
        lemma_walk_prefix(subject, anchor, events.drop_last(), n);
    }
}

/// A walk that succeeds gives the balance history of its events, and ends at
/// the balance before the oldest of them.
pub proof fn lemma_walk_is_history(
    subject: Seq<char>,
    anchor: u128,
    events: Seq<FtHistoryInfoView>,
)
    requires
        walk_spec(subject, anchor, events) is Ok,
    ensures
        is_history_of(subject, anchor, events, walk_spec(subject, anchor, events)->Ok_0.items),
        walk_spec(subject, anchor, events)->Ok_0.running_balance == (if events.len() == 0 {
            anchor as int
        } else {
            walk_spec(subject, anchor, events)->Ok_0.items.last().balance - walk_spec(
                subject,
                anchor,
                events,
            )->Ok_0.items.last().delta_balance
        }),
    decreases events.len(),
{
    if events.len() > 0 {
        let earlier = events.drop_last();
        lemma_walk_is_history(subject, anchor, earlier);
        let walk = walk_spec(subject, anchor, earlier)->Ok_0;
        let item = ft_item_spec(subject, walk.running_balance, events.last())->Ok_0;
        let items = walk_spec(subject, anchor, events)->Ok_0.items;
        assert(items == walk.items.push(item));
        assert forall|i: int| 0 <= i < items.len() implies ft_item_spec(
            subject,
            (#[trigger] items[i]).balance,
            events[i],
        ) == Ok::<CoinHistoryItemView, ErrorKind>(items[i]) by {
            if i < walk.items.len() {
                assert(items[i] == walk.items[i]);
                assert(events[i] == earlier[i]);
            }
        }
        assert forall|i: int| 0 < i < items.len() implies (#[trigger] items[i]).balance == items[i
            - 1].balance - items[i - 1].delta_balance by {
            if i < walk.items.len() {
                assert(items[i] == walk.items[i]);
                assert(items[i - 1] == walk.items[i - 1]);
            }
        }
        assert forall|i: int| 0 < i < items.len() implies (
        #[trigger] items[i]).block_timestamp_nanos <= items[i - 1].block_timestamp_nanos by {
            if i < walk.items.len() {
                assert(items[i] == walk.items[i]);
                assert(items[i - 1] == walk.items[i - 1]);
            }
        }
    }
}

/// Tells which side an account takes in a token event.
pub fn role_in_event(account_id: &AccountId, event: &FtHistoryInfo) -> (role: Role)
    ensures
        role == role_of(account_id@, event@.old_owner_id, event@.new_owner_id),
{
    if account_id.is_named(&event.old_owner_id) {
        Role::Sender
    } else if account_id.is_named(&event.new_owner_id) {
        Role::Receiver
    } else {
        Role::Inconsistent
    }
}

/// Reconstructs one token event for `account_id`, which held `balance` right
/// after it: the item of the event, which reports that balance, and the
/// balance that the account held before the event.
///
/// The change is the amount where the account received it and its negative
/// where the account sent it. Fails with `MalformedNumeric` or `OutOfRange`
/// where a number does not convert or the change does not fit, with
/// `InternalError(NotSenderOrReceiver)` where the account is on neither side,
/// with `AccountAddressInvalid` where the other side is not well-formed, and
/// with `InternalError(NegativeBalance)` where the balance before the event
/// would be negative; where several apply, with the first in the order of
/// [`ft_item_spec`].
pub fn reconstruct_event(account_id: &AccountId, balance: u128, event: &FtHistoryInfo) -> (r: Result<
    (CoinHistoryItem, u128),
    ErrorKind,
>)
    ensures
        match r {
            Ok((item, balance_before)) => {
                &&& ft_item_spec(account_id@, balance, event@) == Ok::<
                    CoinHistoryItemView,
                    ErrorKind,
                >(item@)
                &&& item.coin_metadata is None
                &&& balance_before == balance - item.delta_balance
            },
            Err(e) => ft_item_spec(account_id@, balance, event@) == Err::<
                CoinHistoryItemView,
                ErrorKind,
            >(e),
        },
{
    let amount = match to_i128(event.amount.as_str()) {
        Ok(v) => v,
        Err(e) => {
            return Err(e);
        },
    };
    let role = role_in_event(account_id, event);
    let (delta_balance, other_side) = match role {
        Role::Sender => {
            if amount == i128::MIN {
                return Err(ErrorKind::OutOfRange);
            }
            (-amount, &event.new_owner_id)
        },
        Role::Receiver => (amount, &event.old_owner_id),
        Role::Inconsistent => {
            return Err(ErrorKind::InternalError(InternalFault::NotSenderOrReceiver));
        },
    };
    let involved_account_id = match extract_account_id(other_side.as_str()) {
        Ok(v) => v,
        Err(e) => {
            return Err(e);
        },
    };
    let snapshot = match BalanceSnapshot::undo(balance, delta_balance) {
        Ok(v) => v,
        Err(e) => {
            return Err(e);
        },
    };
    let block_timestamp_nanos = match to_u64(event.block_timestamp.as_str()) {
        Ok(v) => v,
        Err(e) => {
            return Err(e);
        },
    };
    let block_height = match to_u64(event.block_height.as_str()) {
        Ok(v) => v,
        Err(e) => {
            return Err(e);
        },
    };
    let item = CoinHistoryItem {
        action_kind: event.event_kind.clone(),
        involved_account_id,
        delta_balance,
        balance,
        coin_metadata: None,
        block_timestamp_nanos,
        block_height,
    };
    Ok((item, snapshot.balance_before))
}

/// A failure of a page of token events, with the place of the event at which
/// the walk stopped.
#[derive(Clone, Copy, Debug, PartialEq, Eq, Structural)]
pub struct PageFailure {
    /// The index, in the page, of the event that could not be passed.
    pub index: usize,
    /// Why it could not be passed.
    pub kind: ErrorKind,
}

/// Whether the walk over `events` stops at the event of this index with this
/// failure: it passes every event before it, and fails there.
pub open spec fn fails_at(
    subject: Seq<char>,
    anchor: u128,
    events: Seq<FtHistoryInfoView>,
    index: int,
    kind: ErrorKind,
) -> bool {
    &&& 0 <= index < events.len()
    &&& walk_spec(subject, anchor, events.take(index)) is Ok
    &&& walk_spec(subject, anchor, events.take(index + 1)) == Err::<WalkView, ErrorKind>(kind)
}

/// A walk stops at one event only, and with the failure of the page.
pub proof fn lemma_failure_place(
    subject: Seq<char>,
    anchor: u128,
    events: Seq<FtHistoryInfoView>,
    index: int,
    kind: ErrorKind,
    other_index: int,
    other_kind: ErrorKind,
)
    requires
        fails_at(subject, anchor, events, index, kind),
        fails_at(subject, anchor, events, other_index, other_kind),
    ensures
        index == other_index,
        kind == other_kind,
        ft_history_spec(subject, anchor, events) == Err::<Seq<CoinHistoryItemView>, ErrorKind>(
            kind,
        ),
{
    lemma_walk_prefix(subject, anchor, events, index + 1);
    if index < other_index {
        let longer = events.take(other_index);
        assert(longer.take(index + 1) =~= events.take(index + 1));
        lemma_walk_prefix(subject, anchor, longer, index + 1);
    } else if other_index < index {
        let longer = events.take(index);
        assert(longer.take(other_index + 1) =~= events.take(other_index + 1));
        lemma_walk_prefix(subject, anchor, longer, other_index + 1);
    }
}

/// Reconstructs the balance history of `account_id` for one token from
/// `last_balance`, the balance that the account held right after the newest
/// event of the page, and the page's events from the newest to the oldest.
///
/// Each item reports the balance right after its event; the walk then undoes
/// the event and goes on to the next older one. On success there is one item
/// for each event, in the events' order.
///
/// Fails at the first event that has a failure (see [`reconstruct_event`]) or
/// is younger than the one before it, which is `InternalError(PageOrder)`;
/// it then returns no item at all, but the place of that event and the
/// failure.
pub fn walk_ft_history(
    account_id: &AccountId,
    last_balance: u128,
    ft_history_info: Vec<FtHistoryInfo>,
) -> (r: Result<Vec<CoinHistoryItem>, PageFailure>)
    ensures
        match r {
            Ok(items) => {
                &&& ft_history_spec(account_id@, last_balance, ft_rows_view(ft_history_info@))
                    == Ok::<Seq<CoinHistoryItemView>, ErrorKind>(coin_items_view(items@))
                &&& is_history_of(
                    account_id@,
                    last_balance,
                    ft_rows_view(ft_history_info@),
                    coin_items_view(items@),
                )
                &&& forall|i: int|
                    0 <= i < items@.len() ==> balance_before_spec(
                        (#[trigger] items@[i]).balance,
                        items@[i].delta_balance,
                    ) is Ok
                &&& forall|i: int| 0 <= i < items@.len() ==> (#[trigger] items@[i]).coin_metadata is None
            },
            Err(failure) => {
                &&& ft_history_spec(account_id@, last_balance, ft_rows_view(ft_history_info@))
                    == Err::<Seq<CoinHistoryItemView>, ErrorKind>(failure.kind)
                &&& fails_at(
                    account_id@,
                    last_balance,
                    ft_rows_view(ft_history_info@),
                    failure.index as int,
                    failure.kind,
                )
            },
        },
{
    let ghost subject = account_id@;
    let ghost events = ft_rows_view(ft_history_info@);
    let mut result: Vec<CoinHistoryItem> = Vec::new();
    let mut running_balance = last_balance;
    let mut newest_timestamp: Option<u64> = None;
    proof {
        assert(events.take(0) =~= Seq::<FtHistoryInfoView>::empty());
        assert(coin_items_view(result@) =~= Seq::<CoinHistoryItemView>::empty());
    }
    for db_info in iter: ft_history_info.into_iter()
        invariant
            iter.seq() == ft_history_info@,
            subject == account_id@,
            events == ft_rows_view(ft_history_info@),
            result@.len() == iter.index(),
            walk_spec(subject, last_balance, events.take(iter.index() as int)) == Ok::<
                WalkView,
                ErrorKind,
            >(WalkView { items: coin_items_view(result@), running_balance }),
            newest_timestamp == (if result@.len() == 0 {
                None::<u64>
            } else {
                Some(result@.last().block_timestamp_nanos)
            }),
            forall|i: int| 0 <= i < result@.len() ==> (#[trigger] result@[i]).coin_metadata is None,
    {
        let ghost done = iter.index() as int;
        let ghost before = coin_items_view(result@);
        proof {
            assert(events.take(done + 1).drop_last() =~= events.take(done));
            assert(events.take(done + 1).last() == db_info@);
            if done > 0 {
                assert(before.last() == result@.last()@);
            }
        }
        let (item, balance_before) = match reconstruct_event(account_id, running_balance, &db_info) {
            Ok(v) => v,
            Err(kind) => {
                proof {
                    lemma_walk_prefix(subject, last_balance, events, done + 1);
                }
                return Err(PageFailure { index: result.len(), kind });
            },
        };
        let in_order = match newest_timestamp {
            Some(previous) => item.block_timestamp_nanos <= previous,
            None => true,
        };
        if !in_order {
            proof {
                lemma_walk_prefix(subject, last_balance, events, done + 1);
            }
            return Err(
                PageFailure {
                    index: result.len(),
                    kind: ErrorKind::InternalError(InternalFault::PageOrder),
                },
            );
        }
        newest_timestamp = Some(item.block_timestamp_nanos);
        running_balance = balance_before;
        result.push(item);
        assert(coin_items_view(result@) =~= before.push(item@));
    }
    proof {
        assert(events.take(events.len() as int) =~= events);
        lemma_walk_is_history(subject, last_balance, events);
        let items = coin_items_view(result@);
        assert forall|i: int| 0 <= i < result@.len() implies balance_before_spec(
            (#[trigger] result@[i]).balance,
            result@[i].delta_balance,
        ) is Ok by {
            assert(items[i] == result@[i]@);
        }
    }
    Ok(result)
}

/// Reconstructs the balance history of `account_id` for one token from
/// `last_balance`, the balance that the account held right after the newest
/// event of the page, and the page's events from the newest to the oldest.
///
/// Each item reports the balance right after its event; the walk then undoes
/// the event and goes on to the next older one. On success there is one item
/// for each event, in the events' order.
///
/// Fails with the failure of the first event that has one (see
/// [`reconstruct_event`]), and with `InternalError(PageOrder)` at the first
/// event that is younger than the one before it; it then returns no item at
/// all. [`walk_ft_history`] also tells the place of that event.
pub fn get_ft_history(
    account_id: &AccountId,
    last_balance: u128,
    ft_history_info: Vec<FtHistoryInfo>,
) -> (r: Result<Vec<CoinHistoryItem>, ErrorKind>)
    ensures
        match r {
            Ok(items) => {
                &&& ft_history_spec(account_id@, last_balance, ft_rows_view(ft_history_info@))
                    == Ok::<Seq<CoinHistoryItemView>, ErrorKind>(coin_items_view(items@))
                &&& is_history_of(
                    account_id@,
                    last_balance,
                    ft_rows_view(ft_history_info@),
                    coin_items_view(items@),
                )
                &&& forall|i: int|
                    0 <= i < items@.len() ==> balance_before_spec(
                        (#[trigger] items@[i]).balance,
                        items@[i].delta_balance,
                    ) is Ok
                &&& forall|i: int| 0 <= i < items@.len() ==> (#[trigger] items@[i]).coin_metadata is None
            },
            Err(e) => ft_history_spec(account_id@, last_balance, ft_rows_view(ft_history_info@))
                == Err::<Seq<CoinHistoryItemView>, ErrorKind>(e),
        },
{
    match walk_ft_history(account_id, last_balance, ft_history_info) {
        Ok(items) => Ok(items),
        Err(failure) => Err(failure.kind),
    }
}

/// A balance history is the outcome of the walk over its events: the walk
/// succeeds, and gives these items and no others.
pub proof fn lemma_history_is_walk(
    subject: Seq<char>,
    anchor: u128,
    events: Seq<FtHistoryInfoView>,
    items: Seq<CoinHistoryItemView>,
)
    requires
        is_history_of(subject, anchor, events, items),
    ensures
        ft_history_spec(subject, anchor, events) == Ok::<Seq<CoinHistoryItemView>, ErrorKind>(
            items,
        ),
    decreases events.len(),
{
    if events.len() == 0 {
        assert(items =~= Seq::<CoinHistoryItemView>::empty());
    } else {
        let earlier = events.drop_last();
        let passed = items.drop_last();
        assert(is_history_of(subject, anchor, earlier, passed)) by {
            assert forall|i: int| 0 <= i < passed.len() implies ft_item_spec(
                subject,
                (#[trigger] passed[i]).balance,
                earlier[i],
            ) == Ok::<CoinHistoryItemView, ErrorKind>(passed[i]) by {
                assert(passed[i] == items[i]);
            }
            assert forall|i: int| 0 < i < passed.len() implies (#[trigger] passed[i]).balance
                == passed[i - 1].balance - passed[i - 1].delta_balance by {
                assert(passed[i] == items[i]);
                assert(passed[i - 1] == items[i - 1]);
            }
            assert forall|i: int| 0 < i < passed.len() implies (
            #[trigger] passed[i]).block_timestamp_nanos <= passed[i - 1].block_timestamp_nanos by {
                assert(passed[i] == items[i]);
                assert(passed[i - 1] == items[i - 1]);
            }
        }
        lemma_history_is_walk(subject, anchor, earlier, passed);
        lemma_walk_is_history(subject, anchor, earlier);
        let walk = walk_spec(subject, anchor, earlier)->Ok_0;
        let last = items.len() - 1;
        assert(walk.items == passed);
        assert(items[last].balance == walk.running_balance) by {
            if last > 0 {
                assert(passed.last() == items[last - 1]);
            }
        }
        assert(ft_item_spec(subject, walk.running_balance, events.last()) == Ok::<
            CoinHistoryItemView,
            ErrorKind,
        >(items[last]));
        if last > 0 {
            assert(passed.last() == items[last - 1]);
            assert(items[last].block_timestamp_nanos <= items[last - 1].block_timestamp_nanos);
        }
        assert(passed.push(items[last]) =~= items);
    }
}

/// No balance of a history is negative: neither the balance after an event
/// nor the balance before it, and both fit 128 bits.
pub proof fn lemma_history_non_negative(
    subject: Seq<char>,
    anchor: u128,
    events: Seq<FtHistoryInfoView>,
    items: Seq<CoinHistoryItemView>,
    i: int,
)
    requires
        is_history_of(subject, anchor, events, items),
        0 <= i < items.len(),
    ensures
        0 <= items[i].balance <= u128::MAX,
        0 <= items[i].balance - items[i].delta_balance <= u128::MAX,
        balance_before_spec(items[i].balance, items[i].delta_balance) is Ok,
{
    assert(ft_item_spec(subject, items[i].balance, events[i]) == Ok::<
        CoinHistoryItemView,
        ErrorKind,
    >(items[i]));
}

/// A history has no gap: the balance before an event is the balance after
/// the event that follows it in the page, which is the next older one; and
/// the balance after the newest event is the anchor.
pub proof fn lemma_history_continuity(
    subject: Seq<char>,
    anchor: u128,
    events: Seq<FtHistoryInfoView>,
    items: Seq<CoinHistoryItemView>,
    i: int,
)
    requires
        is_history_of(subject, anchor, events, items),
        0 <= i < items.len() - 1,
    ensures
        items[0].balance == anchor,
        items[i].balance - items[i].delta_balance == items[i + 1].balance,
{
    assert(items[i + 1].balance == items[i].balance - items[i].delta_balance);
}

/// An event of a positive amount lowers the balance of its sender; one of
/// amount zero leaves it as it is.
pub proof fn lemma_sender_delta(subject: Seq<char>, balance: u128, event: FtHistoryInfoView)
    requires
        ft_item_spec(subject, balance, event) is Ok,
        role_of(subject, event.old_owner_id, event.new_owner_id) is Sender,
        to_i128_spec(event.amount)->Ok_0 >= 0,
    ensures
        ft_item_spec(subject, balance, event)->Ok_0.delta_balance == -to_i128_spec(
            event.amount,
        )->Ok_0,
        ft_item_spec(subject, balance, event)->Ok_0.delta_balance <= 0,
        ft_item_spec(subject, balance, event)->Ok_0.delta_balance == 0 <==> to_i128_spec(
            event.amount,
        )->Ok_0 == 0,
{
}

/// An event of a positive amount raises the balance of its receiver.
pub proof fn lemma_receiver_delta(subject: Seq<char>, balance: u128, event: FtHistoryInfoView)
    requires
        ft_item_spec(subject, balance, event) is Ok,
        role_of(subject, event.old_owner_id, event.new_owner_id) is Receiver,
        to_i128_spec(event.amount)->Ok_0 > 0,
    ensures
        ft_item_spec(subject, balance, event)->Ok_0.delta_balance == to_i128_spec(
            event.amount,
        )->Ok_0,
        ft_item_spec(subject, balance, event)->Ok_0.delta_balance > 0,
{
}

/// In a history, the change of each item has the sign of its side: not
/// positive for the sender of an amount that is not negative, positive for
/// the receiver of a positive amount.
pub proof fn lemma_history_delta_sign(
    subject: Seq<char>,
    anchor: u128,
    events: Seq<FtHistoryInfoView>,
    items: Seq<CoinHistoryItemView>,
    i: int,
)
    requires
        is_history_of(subject, anchor, events, items),
        0 <= i < items.len(),
    ensures
        to_i128_spec(events[i].amount) is Ok,
        !(role_of(subject, events[i].old_owner_id, events[i].new_owner_id) is Inconsistent),
        items[i].delta_balance == signed_delta(
            role_of(subject, events[i].old_owner_id, events[i].new_owner_id),
            to_i128_spec(events[i].amount)->Ok_0 as int,
        ),
        role_of(subject, events[i].old_owner_id, events[i].new_owner_id) is Sender && to_i128_spec(
            events[i].amount,
        )->Ok_0 > 0 ==> items[i].delta_balance < 0,
        role_of(subject, events[i].old_owner_id, events[i].new_owner_id) is Sender && to_i128_spec(
            events[i].amount,
        )->Ok_0 == 0 ==> items[i].delta_balance == 0,
        role_of(subject, events[i].old_owner_id, events[i].new_owner_id) is Receiver
            && to_i128_spec(events[i].amount)->Ok_0 > 0 ==> items[i].delta_balance > 0,
{
    assert(ft_item_spec(subject, items[i].balance, events[i]) == Ok::<
        CoinHistoryItemView,
        ErrorKind,
    >(items[i]));
}

/// An event in which the account is on neither side gives no item: it fails,
/// and where its amount converts it fails with
/// `InternalError(NotSenderOrReceiver)`.
pub proof fn lemma_stranger_event_fails(subject: Seq<char>, balance: u128, event: FtHistoryInfoView)
    requires
        role_of(subject, event.old_owner_id, event.new_owner_id) is Inconsistent,
    ensures
        ft_item_spec(subject, balance, event) is Err,
        to_i128_spec(event.amount) is Ok ==> ft_item_spec(subject, balance, event) == Err::<
            CoinHistoryItemView,
            ErrorKind,
        >(ErrorKind::InternalError(InternalFault::NotSenderOrReceiver)),
{
}

/// A page that holds an event in which the account is on neither side gives
/// no history: the event is never passed over. Where the events before it
/// succeed and its amount converts, the page fails with
/// `InternalError(NotSenderOrReceiver)`.
pub proof fn lemma_stranger_fails_history(
    subject: Seq<char>,
    anchor: u128,
    events: Seq<FtHistoryInfoView>,
    i: int,
)
    requires
        0 <= i < events.len(),
        role_of(subject, events[i].old_owner_id, events[i].new_owner_id) is Inconsistent,
    ensures
        ft_history_spec(subject, anchor, events) is Err,
        walk_spec(subject, anchor, events.take(i)) is Ok && to_i128_spec(events[i].amount) is Ok
            ==> ft_history_spec(subject, anchor, events) == Err::<
            Seq<CoinHistoryItemView>,
            ErrorKind,
        >(ErrorKind::InternalError(InternalFault::NotSenderOrReceiver)),
{
    let upto = events.take(i + 1);
    assert(upto.drop_last() =~= events.take(i));
    assert(upto.last() == events[i]);
    assert(walk_spec(subject, anchor, upto) is Err);
    lemma_walk_prefix(subject, anchor, events, i + 1);
}

/// The timestamps of a page of token items, in the page's order.
pub open spec fn coin_timestamps(items: Seq<CoinHistoryItemView>) -> Seq<u64> {
    items.map_values(|item: CoinHistoryItemView| item.block_timestamp_nanos)
}

/// What [`next_ft_cursor`] returns.
pub open spec fn next_ft_cursor_spec(
    pagination: HistoryPagination,
    items: Seq<CoinHistoryItemView>,
) -> Option<HistoryPagination> {
    if items.len() == 0 {
        None
    } else {
        Some(pagination.after_spec(items.last().block_height, items.last().block_timestamp_nanos))
    }
}

/// The cursor of the page that follows a page of token items: it stands
/// behind the oldest item, the last of the page. An empty page has no
/// successor.
pub fn next_ft_cursor(pagination: &HistoryPagination, items: &Vec<CoinHistoryItem>) -> (next: Option<
    HistoryPagination,
>)
    ensures
        next == next_ft_cursor_spec(*pagination, coin_items_view(items@)),
        next is Some <==> items@.len() > 0,
{
    if items.len() == 0 {
        None
    } else {
        let oldest = &items[items.len() - 1];
        assert(coin_items_view(items@).last() == oldest@);
        Some(pagination.after(oldest.block_height, oldest.block_timestamp_nanos))
    }
}

/// The cursor of the page that follows a page of native-coin items: it stands
/// behind the oldest item, the last of the page, and keeps the block height,
/// which the native-coin path does not use. An empty page has no successor.
pub fn next_near_cursor(pagination: &HistoryPagination, items: &Vec<NearHistoryItem>) -> (next: Option<
    HistoryPagination,
>)
    ensures
        items@.len() == 0 ==> next is None,
        items@.len() > 0 ==> next == Some(
            pagination.after_spec(pagination.block_height, items@.last().block_timestamp_nanos),
        ),
{
    if items.len() == 0 {
        None
    } else {
        let oldest = &items[items.len() - 1];
        Some(pagination.after(pagination.block_height, oldest.block_timestamp_nanos))
    }
}

/// The cursor that follows a history admits none of its events, so the next
/// page cannot hold one of them again.
pub proof fn lemma_next_ft_cursor_admits_none(
    pagination: HistoryPagination,
    subject: Seq<char>,
    anchor: u128,
    events: Seq<FtHistoryInfoView>,
    items: Seq<CoinHistoryItemView>,
    i: int,
)
    requires
        is_history_of(subject, anchor, events, items),
        0 <= i < items.len(),
    ensures
        next_ft_cursor_spec(pagination, items) is Some,
        !next_ft_cursor_spec(pagination, items)->Some_0.admits_spec(items[i].block_timestamp_nanos),
{
    let timestamps = coin_timestamps(items);
    assert forall|k: int| 0 < k < timestamps.len() implies timestamps[k - 1]
        >= #[trigger] timestamps[k] by {
        assert(items[k].block_timestamp_nanos <= items[k - 1].block_timestamp_nanos);
    }
    crate::types::query_params::lemma_descending(timestamps);
    assert(timestamps[i] >= timestamps[items.len() - 1]);
}

} // verus!
