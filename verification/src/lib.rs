pub mod campaign;
pub mod constants;
pub mod distributor;
pub mod error;
pub mod event;
pub mod hashing;
pub mod ledger;
pub mod merkle;
pub mod merkle_tree;
pub mod state;
