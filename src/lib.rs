//! Per-cell quality-control metrics for single-cell chromatin-accessibility data.
use vstd::prelude::*;

pub mod fragment;
pub mod interval_map;
pub mod qc;
pub mod region;
pub mod text;
pub mod tss;

verus! {

} // verus!
