//! Session bootstrap and pipe maintenance for a tunnelling client: endpoint
//! parsing, bridge key decoding, per-bridge connection planning and the
//! decisions of the background bridge refresher.
pub mod bridge;
pub mod builder;
pub mod connector;
pub mod endpoint;
pub mod refresher;

pub use endpoint::parse_independent_endpoint;
