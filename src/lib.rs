//! Shared purchases among a few accounts: exact cent arithmetic with fair
//! apportionment, how each purchase is split among its consumers, a ledger
//! kept in order of days, and a per-category spending flow that spreads each
//! purchase over the category's duration.
pub mod accounts;
pub mod completion;
pub mod date;
pub mod flow;
pub mod interface;
pub mod keyed;
pub mod ledger;
pub mod money;
pub mod snapshot;
pub mod tags;
pub mod term;
