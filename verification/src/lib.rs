//! Operator console core for a locally running nginx service.
//!
//! The library holds the logic that is worth proving: caching an
//! administrator credential across requests, planning elevated service
//! commands, resolving the true log destination out of a nested
//! configuration tree, buffering a tailed log file into
//! whole lines, and building the argument lists of the two platform
//! log-query grammars.  All process spawning, filesystem access and HTTP
//! framing stay outside, in a thin unverified shell that feeds this
//! library plain values and carries its answers back.

pub mod auth;
pub mod elevation;
pub mod logquery;
pub mod metrics;
pub mod resolver;
pub mod service;
pub mod tail;
pub mod text;

use vstd::prelude::*;

verus! {

/// The platforms the console distinguishes when it plans a command.
#[derive(Clone, Copy, PartialEq, Eq, Structural, Debug)]
pub enum Platform {
    Linux,
    Macos,
    Windows,
    Other,
}

} // verus!
