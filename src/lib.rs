//! Planning of benchmark summary plots: line comparisons of mean values
//! against an input parameter, and violin plots of value distributions.
//!
//! The functions here decide what a plot shows (groups, order, speedup
//! ratios, units, colours, lanes, labels); drawing is left to the caller.

pub mod bytes;
pub mod style;
pub mod grouping;
pub mod ratio;
pub mod id;
pub mod comparison;
pub mod speedup;
pub mod layout;
