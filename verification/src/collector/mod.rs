//! Collection of market data.

pub mod ch;
pub mod config;
pub mod exchanges;
pub mod rtds;
pub mod session;
pub mod sink;
