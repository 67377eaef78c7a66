//! Tasks that run the Icicle fuzzer, its monitor, or both.

pub mod files;
pub mod fuzz;
pub mod monitor;
