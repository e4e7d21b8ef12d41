//! A filesystem access layer for a writing-project application.
//!
//! The library holds the verified core of the bridge: the fixed project
//! layout and the stepping through its creation, the filtering and
//! alphabetical sorting of directory listings, the uniform error values
//! that every operation reports, and a mathematical model of the
//! filesystem on which the bridge's laws (idempotent initialization,
//! write/read round trips, renaming) are proved. The host shell performs
//! the native filesystem calls and hands their outcomes to this crate as
//! plain values.

pub mod errors;
pub mod order;
pub mod listing;
pub mod init;
pub mod bridge;
pub mod model;
