//! Exact streaming mean over a grid of independently compressed chunks of
//! binary16 values.
pub mod element;
pub mod aggregate;
pub mod codec;
pub mod grid;
pub mod orchestrator;
