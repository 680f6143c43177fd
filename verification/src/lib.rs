//! A quadtree spatial index for point-like agents in a bounded plane, with
//! the per-tick proximity-query protocol of a small epidemic simulation.
//!
//! The index stores entities with 2D integer coordinates, supports
//! incremental insertion with capacity-triggered subdivision, and answers
//! axis-aligned range queries and radius-filtered neighbor queries.

pub mod constants;
pub mod person;
pub mod quadtree;
pub mod simulation;
