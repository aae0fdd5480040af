//! Small, verified building blocks for tabular machine-learning examples:
//! a two-column table that can be filtered through the dataframe engine,
//! a typed table of loaded columns, datasets with a fixed train/test split,
//! and an exact confusion matrix.
//!
//! Numeric cells are carried as the 64-bit patterns of IEEE-754 doubles. The
//! library only moves them and substitutes the all-zero pattern, which is
//! `+0.0`, for a missing cell; it never does arithmetic on them.

pub mod dataset;
pub mod engine;
pub mod error;
pub mod frame;
pub mod metrics;
pub mod people;
pub mod text;
pub mod utils;
