//! The rows of the event log, as the database hands them out: every number
//! is still decimal text.
use vstd::prelude::*;

verus! {

/// One change of an account's native-coin balance. The row carries the
/// balances that the account held right after the change.
#[derive(Debug, Clone, PartialEq, Eq)]
pub struct NearHistoryInfo {
    /// The other account that took part, if any.
    pub involved_account_id: Option<String>,
    /// The change of the balance that can be spent.
    pub delta_available_balance: String,
    /// The change of the balance that is staked.
    pub delta_staked_balance: String,
    /// The balance that can be spent, after the change.
    pub available_balance: String,
    /// The balance that is staked, after the change.
    pub staked_balance: String,
    /// What caused the change.
    pub cause: String,
    /// When the block was produced, in nanoseconds.
    pub block_timestamp_nanos: String,
}

/// A [`NearHistoryInfo`] with each text as a sequence of characters.
pub struct NearHistoryInfoView {
    pub involved_account_id: Option<Seq<char>>,
    pub delta_available_balance: Seq<char>,
    pub delta_staked_balance: Seq<char>,
    pub available_balance: Seq<char>,
    pub staked_balance: Seq<char>,
    pub cause: Seq<char>,
    pub block_timestamp_nanos: Seq<char>,
}

impl View for NearHistoryInfo {
    type V = NearHistoryInfoView;

    open spec fn view(&self) -> NearHistoryInfoView {
        NearHistoryInfoView {
            involved_account_id: match self.involved_account_id {
                Some(id) => Some(id@),
                None => None,
            },
            delta_available_balance: self.delta_available_balance@,
            delta_staked_balance: self.delta_staked_balance@,
            available_balance: self.available_balance@,
            staked_balance: self.staked_balance@,
            cause: self.cause@,
            block_timestamp_nanos: self.block_timestamp_nanos@,
        }
    }
}

/// One transfer, mint or burn of a fungible token. The row carries no
/// balance: only the amount that moved and between whom.
#[derive(Debug, Clone, PartialEq, Eq)]
pub struct FtHistoryInfo {
    /// The height of the block that holds the event.
    pub block_height: String,
    /// When that block was produced, in nanoseconds.
    pub block_timestamp: String,
    /// The amount that moved, in the token's smallest unit.
    pub amount: String,
    /// The kind of the event, handed on unchanged.
    pub event_kind: String,
    /// The account that gave the amount; empty for a mint.
    pub old_owner_id: String,
    /// The account that got the amount; empty for a burn.
    pub new_owner_id: String,
}

/// An [`FtHistoryInfo`] with each text as a sequence of characters.
pub struct FtHistoryInfoView {
    pub block_height: Seq<char>,
    pub block_timestamp: Seq<char>,
    pub amount: Seq<char>,
    pub event_kind: Seq<char>,
    pub old_owner_id: Seq<char>,
    pub new_owner_id: Seq<char>,
}

impl View for FtHistoryInfo {
    type V = FtHistoryInfoView;

    open spec fn view(&self) -> FtHistoryInfoView {
        FtHistoryInfoView {
            block_height: self.block_height@,
            block_timestamp: self.block_timestamp@,
            amount: self.amount@,
            event_kind: self.event_kind@,
            old_owner_id: self.old_owner_id@,
            new_owner_id: self.new_owner_id@,
        }
    }
}

/// The views of a page of token events, in the page's order.
pub open spec fn ft_rows_view(rows: Seq<FtHistoryInfo>) -> Seq<FtHistoryInfoView> {
    rows.map_values(|row: FtHistoryInfo| row@)
}

/// The views of a page of native-coin rows, in the page's order.
pub open spec fn near_rows_view(rows: Seq<NearHistoryInfo>) -> Seq<NearHistoryInfoView> {
    rows.map_values(|row: NearHistoryInfo| row@)
}

} // verus!
