//! A matchmaking core: a rating registry, a queue of waiting players, a
//! formulation engine that poses team balancing as an integer program, a
//! match store keyed by a content-derived hash, and a fixed-layout binary
//! protocol codec.
//!
//! Solving the optimization problem itself is left to an outside solver:
//! the library builds the problem as exact integer data and validates the
//! assignment that comes back, so every property of a returned match is
//! checked here rather than trusted.

pub mod bytes;
pub mod config;
pub mod formulation;
pub mod group;
pub mod ids;
pub mod protocol;
pub mod slam;
