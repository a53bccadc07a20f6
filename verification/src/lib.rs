//! Short-horizon market data: collection, snapshots and prediction inputs.

pub mod collector;
pub mod decimal;
pub mod features;
pub mod inference;
pub mod json;
pub mod numbers;
pub mod seqs;
pub mod text;
pub mod types;
