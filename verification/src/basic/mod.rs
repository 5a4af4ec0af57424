//! The basic configuration: one target, a request count, optional headers
//! and body, with plain integer status codes in its results.

pub mod benchmark;
pub mod execution;
pub mod settings;
