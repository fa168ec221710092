//! Engine of a TCP port scanner: host-specification parsing, subnet
//! expansion, work-list construction, work partitioning, result
//! aggregation and the single-scan state machine.

pub mod text;
pub mod error;
pub mod result;
pub mod address;
pub mod work;
pub mod engine;
