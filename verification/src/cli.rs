//! The command line.
use vstd::prelude::*;

verus! {

/// The command-line arguments: an optional configuration file, a debug mode
/// that reports each step, a headless mode that lists projects without
/// opening them, and a command to confirm and run (used by `@confirm`).
#[derive(Clone, Debug)]
pub struct Args {
    pub config: Option<String>,
    pub debug: bool,
    pub headless: bool,
    pub run_command: Option<String>,
}

} // verus!
