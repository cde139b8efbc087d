//! Deterministic, diff-driven documentation governance: rule matching, config
//! resolution and validation, metadata checks and report building.
#![allow(unused_imports)]

pub mod baseline;
pub mod check;
pub mod cli;
pub mod config;
pub mod diagnostics;
pub mod doctor;
pub mod explain;
pub mod git;
pub mod list_rules;
pub mod metadata;
pub mod reporters;
pub mod route;
pub mod rules;
pub mod text;
pub mod validate_config;
pub mod waiver;
pub mod yamldoc;

use vstd::prelude::*;

verus! {

/// The exit outcome of one command.
#[derive(Debug, Clone, Copy, PartialEq, Eq, Structural)]
pub enum AppExit {
    Success,
    LintFailure,
}

} // verus!
