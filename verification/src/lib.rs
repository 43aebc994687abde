//! Rule engine for linting analytics data plans.
//!
//! A data plan is a set of files, each declaring metrics, pageviews and
//! sources. The engine folds every file into a cache, then checks each file
//! against a closed set of rules and groups what it found by item kind and
//! item name, in first-seen order.

pub mod lint;
pub mod schema;
