//! Verification of LAVA-M bugs: which of the injected bugs do the crashing inputs trigger, and when
//! was each first found.

pub mod check;
pub mod laws;
pub mod report;
pub mod run;
pub mod runner;
pub mod task;
