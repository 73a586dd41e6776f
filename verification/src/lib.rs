//! A decision-tree library over tabular rows with real and categorical features.
//!
//! Real values travel as IEEE-754 bit patterns ([`realnum::Real`]): their
//! ordering, NaN rules, routing and the decisions of the split search are
//! defined and verified here over the bits, while the floating-point arithmetic
//! that produces impurities, thresholds and fitted models belongs to the
//! callers that own it.

pub mod encoder;
pub mod error;
pub mod grouping;
pub mod leaf;
pub mod metrics;
pub mod nodes;
pub mod parameters;
pub mod pva;
pub mod realnum;
pub mod row;
pub mod scan;
pub mod sorting;
pub mod split;
pub mod splitter;
pub mod tree;
pub mod values;
