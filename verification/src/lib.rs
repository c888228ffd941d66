//! Balance history reconstruction for accounts of the NEAR ledger.
//!
//! The ledger records events (transfers, mints, burns); a client wants the
//! balance that an account held right after each of them. This library turns
//! one page of such events, newest first, into history items:
//!
//! * [`types::numeric`] converts decimal text, as a database hands it out, to
//!   `u128`, `i128` and `u64` and back, and refuses what is not an integer or
//!   does not fit;
//! * [`types::account_id`] holds account identifiers that the NEAR rules accept;
//! * [`types::query_params`] is the cursor (block height, block timestamp,
//!   limit) that bounds one page and yields the cursor of the next;
//! * [`coin::history`] projects native-coin rows, which carry absolute
//!   balances, and walks fungible-token events backward from a known balance.
//!
//! Every function is verified with Verus against the contract it carries.
pub mod coin;
pub mod errors;
pub mod types;

pub use errors::{ErrorKind, InternalFault};
