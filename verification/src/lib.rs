//! A harness that runs fuzzing benchmarks in virtual machines.
//!
//! The library holds what the harness decides: what the command line says ([`args`]) and which
//! steps that takes ([`run`], [`config`]), what the variables of a task come to ([`vars`]), which
//! trials a benchmark has ([`bench`]) and who runs them ([`workers`]), what a virtual machine is
//! made of ([`instances`], [`images`], [`docker`]), and what the tasks ask of the agent in it
//! ([`icicle`], [`lava`]). It does no input or output of its own. Where work outside is followed by
//! a decision, the decision is a function from what was seen to what is to be done next.

pub mod agent;
pub mod args;
pub mod bench;
pub mod cancel;
pub mod config;
pub mod debug;
pub mod docker;
pub mod duration;
pub mod guard;
pub mod icicle;
pub mod images;
pub mod instances;
pub mod lava;
pub mod paths;
pub mod run;
pub mod shell;
pub mod text;
pub mod vars;
pub mod wait;
pub mod workers;
