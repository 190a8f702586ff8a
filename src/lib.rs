//! A ledger of client accounts driven by deposit, withdrawal, dispute,
//! resolve and chargeback events, with every balance change stated and proved.

pub mod decimal;
pub mod text;
pub mod txn;
pub mod types;
pub mod account;
pub mod payment_engine;
pub mod util;
pub mod laws;
