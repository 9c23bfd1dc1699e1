//! Index-level logic for comparing sampled boundary curves: which control
//! points feed each spline segment, where two sampled paths cross, and how the
//! region between them splits into closed loops at those crossings.

pub mod error;
pub mod spline;
pub mod crossing;
pub mod stitch;
