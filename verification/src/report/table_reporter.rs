//! A reporter that renders results through an external pretty-printing
//! table; the crate holds its once-only header state, the table layout
//! itself is drawn by the host around the library.

use vstd::prelude::*;
use crate::report::PrintOnce;

verus! {

/// A reporter that renders each group as a bordered table.
pub struct TableReporter {
    /// The once-only state for the runner-name header.
    pub print_runner_name_once: Option<PrintOnce>,
}

impl TableReporter {
    /// A fresh table reporter.
    pub fn new() -> (r: TableReporter)
        ensures
            r.print_runner_name_once.is_none(),
    {
        TableReporter { print_runner_name_once: None }
    }
}

} // verus!
