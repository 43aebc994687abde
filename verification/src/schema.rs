//! The in-memory model of a data plan.

pub mod spec;
