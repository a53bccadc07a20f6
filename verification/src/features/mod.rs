//! What is computed from the records.

pub mod bbo;
pub mod book;
pub mod builder;
pub mod dataset;
pub mod median;
pub mod rows;
pub mod snapshot;
pub mod trades;
pub mod vector;
pub mod window;
