//! Errors of parsing and writing charts.
use vstd::prelude::*;
use crate::common::GameMode;

verus! {

/// Why a chart could not be read.
#[derive(Debug, Clone, PartialEq, Eq)]
pub enum ParseError {
    /// A required field is missing or unreadable; the detail names it.
    InvalidChart(String),
    /// The chart targets another game mode (found, expected).
    InvalidMode(String, GameMode),
    /// Nothing is left once comments are removed.
    EmptyChartData,
    UnsupportedFormat,
}

/// Why a chart could not be written.
#[derive(Debug, Clone, PartialEq, Eq)]
pub enum WriteError {
    /// Lane count, the supported counts, the target format.
    InvalidKeyCount(u8, String, String),
    Unimpl(GameMode),
}

} // verus!
