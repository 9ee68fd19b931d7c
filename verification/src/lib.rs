//! PageRank over a small dense directed graph.
//!
//! The library has two layers: a generic row-major 2-D container
//! ([`matrix::Matrix`]) and a directed graph ([`graph::Graph`]) that keeps its
//! adjacency in a `Matrix<bool>` and one fixed-point score per vertex.  The
//! PageRank power iteration updates the scores in place, vertex by vertex in
//! ascending order, so that a vertex sees the current sweep's values of the
//! vertices before it (a Gauss-Seidel-style sweep).
//!
//! Scores are fixed-point numbers: an integer count of units of
//! `1 / SCORE_SCALE`.  The damping factor 0.85 is the exact ratio
//! `DAMPING_NUMERATOR / DAMPING_DENOMINATOR`, and the baseline `1 - 0.85`
//! is exactly `BASE_SCORE` units.

pub mod error;
pub mod graph;
pub mod matrix;
