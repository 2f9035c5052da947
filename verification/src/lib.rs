//! A local gateway to Codex: accounts, the store that holds them, and the requests that are sent on
//! their behalf.
pub mod account;
pub mod config;
pub mod gateway;
pub mod json;
pub mod laws;
pub mod outside;
pub mod store;
pub mod text;

pub use account::{Account, AccountSummary, ImportedAccount};
pub use config::{Config, GatewayKey};
pub use gateway::{test_gateway, GatewayOptions, TestResult};
pub use store::Store;
