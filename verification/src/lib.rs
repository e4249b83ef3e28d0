//! Verified core of a toolkit for perovskite (ABO3) simulation cells.

pub mod text;
pub mod types;
pub mod parser;
pub mod order;
pub mod float_bits;
pub mod cell;
pub mod statistics;
pub mod classification;
pub mod geometry;
pub mod cubic;
pub mod kmeans;
pub mod optimization;
pub mod reference;
