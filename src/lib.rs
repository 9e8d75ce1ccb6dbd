pub mod keys;
pub mod state;
pub mod store;
pub mod error;
pub mod msg;
pub mod contract;
