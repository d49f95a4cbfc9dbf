//! The servers that requests are forwarded to.

pub mod balancer;
pub mod pool;
