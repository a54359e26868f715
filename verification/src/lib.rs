//! A generalized cellular-automaton engine: each cell holds an integer life
//! level that grows or decays by one per generation according to
//! neighbor-count rules, with optional diagonal topology and a life cap.

pub mod cells;
pub mod config;
