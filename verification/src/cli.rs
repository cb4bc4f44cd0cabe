//! Command-line configuration consumed by the front end.
//!
//! The front end parses the process arguments into this plain structure; the
//! decision of which mode to run in is made here, where it is verified.

use vstd::prelude::*;

verus! {

/// The calculator's command-line configuration.
#[derive(Debug, Clone)]
pub struct Cli {
    /// Mathematical expression to evaluate; absent means interactive mode.
    pub expression: Option<String>,
    /// Forces interactive mode even when an expression is present.
    pub interactive: bool,
    /// Number of decimal places to display.
    pub precision: usize,
}

impl Cli {
    /// Returns true if the calculator should run in interactive mode: either
    /// it was requested, or no expression was given.
    pub fn is_interactive(&self) -> (r: bool)
        ensures
            r == (self.interactive || self.expression is None),
    {
        self.interactive || self.expression.is_none()
    }
}

} // verus!
