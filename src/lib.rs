//! Fan-out duplication of one stored object into many randomly named copies.
//!
//! The library holds the decisions: how a storage URI becomes a bucket, a
//! prefix and an object name, how keys are formed, how a copy count is split
//! across workers, and what a worker does next. Performing the copies is left
//! to the caller.

pub mod key;
pub mod count;
pub mod source;
pub mod worker;
pub mod invocation;
