//! A batch harness for producing test-case data: configurations carry a
//! numeric identity and a typed parameter map; an executor turns the
//! accumulated configurations into per-case task units (input and output
//! file names, generator line, reference-solver reply), every step of
//! which is specified and verified here. Opening files, spawning worker
//! threads and launching external solver processes are left to the
//! embedding program.
pub mod arith;
pub mod config;
pub mod runtime;
pub mod task;
pub mod text;
