//! The command-line request: symbols to report on and how far to look back.

use vstd::prelude::*;

verus! {

/// A run's request: the stock symbols to report on, and the number of
/// days, weeks, months and years to look back from today for the start
/// of the quote window.
#[derive(Debug)]
pub struct Args {
    pub symbol: Vec<String>,
    pub days_back: usize,
    pub weeks_back: usize,
    pub months_back: usize,
    pub years_back: usize,
}

} // verus!
