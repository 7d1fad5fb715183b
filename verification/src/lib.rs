//! A verified RPC dispatch and correlation engine for a device/host pair
//! speaking strongly typed request/response endpoints over a byte-stream
//! transport.
//!
//! The crate derives compact collision-free wire keys for each registered
//! endpoint and topic, frames messages as `[key][sequence varint][payload]`,
//! routes decoded frames on the device side with a blocking/concurrent
//! handler split, and correlates host-side requests with out-of-order
//! responses while surviving disconnects.

pub mod client;
pub mod codec;
pub mod device;
pub mod host;
pub mod icd;
pub mod keys;
pub mod payload;
pub mod registry;
pub mod schema;
pub mod varint;
pub mod wire;

pub use icd::Rgb8;
pub use icd::SingleLed;
pub use icd::BadPositionError;
