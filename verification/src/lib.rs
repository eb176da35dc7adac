//! A deterministic, discrete-year population simulator.
//!
//! Cohorts of males and females are aged year by year under closed-form
//! fertility and mortality curves. Every real quantity is held in fixed
//! point, so a projection is exactly reproducible and its bookkeeping can
//! be stated and proved over the integers.

pub mod fixed;
pub mod special;
pub mod skew_normal;
pub mod population;
