//! Decision procedure of a gradient-free policy search.
//!
//! Policies are vectors of a caller-chosen scalar type and performances are
//! handed over as order codes: unsigned integers that compare exactly as the
//! performances they stand for. Everything the search decides (which
//! observation is best, how the history ranks, where the exploration sampler
//! stops, when the run ends) is computed here over those values.
pub mod history;
pub mod order;
pub mod run;
pub mod sampler;
pub mod vector;
