pub mod error;
pub mod ledger;
pub mod contract;
pub mod pools;
