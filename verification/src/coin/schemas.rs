//! The items of a balance history, as a client receives them.
use crate::types::account_id::optional_id_view;
use crate::types::account_id::AccountId;
use vstd::prelude::*;

verus! {

/// One change of an account's native-coin balance, with the balances that the
/// account held right after it.
#[derive(Debug, Clone, PartialEq, Eq)]
pub struct NearHistoryItem {
    /// The other account that took part, if any.
    pub involved_account_id: Option<AccountId>,
    /// The change of the whole balance: available and staked together.
    pub delta_balance: i128,
    /// The change of the balance that can be spent.
    pub delta_available_balance: i128,
    /// The change of the balance that is staked.
    pub delta_staked_balance: i128,
    /// The whole balance after the change: available and staked together.
    pub total_balance: u128,
    /// The balance that can be spent, after the change.
    pub available_balance: u128,
    /// The balance that is staked, after the change.
    pub staked_balance: u128,
    /// What caused the change.
    pub cause: String,
    /// When the block was produced, in nanoseconds.
    pub block_timestamp_nanos: u64,
}

/// A [`NearHistoryItem`] with each text as a sequence of characters.
pub struct NearHistoryItemView {
    pub involved_account_id: Option<Seq<char>>,
    pub delta_balance: i128,
    pub delta_available_balance: i128,
    pub delta_staked_balance: i128,
    pub total_balance: u128,
    pub available_balance: u128,
    pub staked_balance: u128,
    pub cause: Seq<char>,
    pub block_timestamp_nanos: u64,
}

impl View for NearHistoryItem {
    type V = NearHistoryItemView;

    open spec fn view(&self) -> NearHistoryItemView {
        NearHistoryItemView {
            involved_account_id: optional_id_view(self.involved_account_id),
            delta_balance: self.delta_balance,
            delta_available_balance: self.delta_available_balance,
            delta_staked_balance: self.delta_staked_balance,
            total_balance: self.total_balance,
            available_balance: self.available_balance,
            staked_balance: self.staked_balance,
            cause: self.cause@,
            block_timestamp_nanos: self.block_timestamp_nanos,
        }
    }
}

/// What is known of a token beyond its contract: the caller fills it in.
#[derive(Debug, Clone, PartialEq, Eq)]
pub struct CoinMetadata {
    /// The ticker of the token.
    pub symbol: String,
    /// How many decimal places the smallest unit stands behind the point.
    pub decimals: u8,
}

/// One transfer, mint or burn of a fungible token, seen from one account,
/// with the balance that the account held right after it.
#[derive(Debug, Clone, PartialEq, Eq)]
pub struct CoinHistoryItem {
    /// The kind of the event.
    pub action_kind: String,
    /// The other side of the event; none for a mint or a burn.
    pub involved_account_id: Option<AccountId>,
    /// By how much the event changed the account's balance.
    pub delta_balance: i128,
    /// The account's balance right after the event.
    pub balance: u128,
    /// Left empty by the reconstruction.
    pub coin_metadata: Option<CoinMetadata>,
    /// When the block was produced, in nanoseconds.
    pub block_timestamp_nanos: u64,
    /// The height of the block that holds the event.
    pub block_height: u64,
}

/// A [`CoinHistoryItem`] without its metadata, each text as a sequence of
/// characters.
pub struct CoinHistoryItemView {
    pub action_kind: Seq<char>,
    pub involved_account_id: Option<Seq<char>>,
    pub delta_balance: i128,
    pub balance: u128,
    pub block_timestamp_nanos: u64,
    pub block_height: u64,
}

impl View for CoinHistoryItem {
    type V = CoinHistoryItemView;

    open spec fn view(&self) -> CoinHistoryItemView {
        CoinHistoryItemView {
            action_kind: self.action_kind@,
            involved_account_id: optional_id_view(self.involved_account_id),
            delta_balance: self.delta_balance,
            balance: self.balance,
            block_timestamp_nanos: self.block_timestamp_nanos,
            block_height: self.block_height,
        }
    }
}

/// The views of a page of token items, in the page's order.
pub open spec fn coin_items_view(items: Seq<CoinHistoryItem>) -> Seq<CoinHistoryItemView> {
    items.map_values(|item: CoinHistoryItem| item@)
}

/// The views of a page of native-coin items, in the page's order.
pub open spec fn near_items_view(items: Seq<NearHistoryItem>) -> Seq<NearHistoryItemView> {
    items.map_values(|item: NearHistoryItem| item@)
}

} // verus!
