//! The tool's command line as plain values.
use vstd::prelude::*;

verus! {

/// What the tool is asked to do.
#[derive(Debug, PartialEq, Eq)]
pub enum Commands {
    /// Build the container for the project whose manifest directory is `path`.
    Encode { path: String },
    /// Validate the container file at `path` and report its summary.
    Decode { path: String },
}

/// The parsed command line.
#[derive(Debug, PartialEq, Eq)]
pub struct Cli {
    pub command: Commands,
}

} // verus!
