//! The plugins: their sources, the state they share, and the machine they run
//! on.

pub mod context;
pub mod vm;
pub mod engine;
