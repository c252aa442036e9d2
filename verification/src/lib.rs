//! A verified core for a daily stock report: calendar window arithmetic,
//! quote normalization, summary statistics over a price series, and the
//! rendering of one delimited report row per symbol.

pub mod args;
pub mod calendar;
pub mod normalize;
pub mod render;
pub mod stats;
pub mod types;
