//! The gateway: what it answers itself, what it asks of the upstream, and on whose account.
pub mod answer;
pub mod chat;
pub mod dispatch;
pub mod http;
pub mod images;
pub mod multipart;
pub mod options;
pub mod probe;
pub mod request;
pub mod state;

pub use options::GatewayOptions;
pub use probe::{test_gateway, TestResult};
