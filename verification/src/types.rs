//! The plain values that the history functions take and give.
pub mod account_id;
pub mod numeric;
pub mod query_params;
