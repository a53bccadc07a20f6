//! Prediction from the features of a snapshot.

pub mod config;
pub mod model;
