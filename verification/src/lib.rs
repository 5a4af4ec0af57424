//! A verified core for an HTTP load-testing tool: settings parsing,
//! request headers and templating, worker scheduling, result statistics and
//! report formatting.

pub mod args;
pub mod banner;
pub mod basic;
pub mod benchmark;
pub mod execution;
pub mod headers;
pub mod mcp;
pub mod settings;
pub mod text;
