//! A non-fungible-token registry: a ledger of token records with owner and
//! operator indexes, guarded mint / transfer / approve / burn transitions, a
//! self-checking token identifier codec, batch transfers and upgrade restore.
pub mod principal;
pub mod token_identifier;
pub mod types;
pub mod ledger;
pub mod dip721;
pub mod prop;
pub mod batch;
pub mod canister;
