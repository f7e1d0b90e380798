//! Bridge between an external signal source and a running application.
//!
//! The crate has three parts: a score store that encodes and decodes the
//! persisted high-score record, a signal decoder that turns raw datagram
//! bytes into event names, and a relay that maps inbound signals and
//! save requests to the actions the hosting application must perform.

pub mod digits;
pub mod relay;
pub mod signal;
pub mod store;
pub mod text;
