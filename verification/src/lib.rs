//! A verified core for Conway's Game of Life on a fixed rectangular grid:
//! grid geometry, Moore-neighbourhood precomputation with an exterior
//! sentinel, the B3/S23 transition rule, and double-buffered
//! evaluate-then-commit ticks with seeded or non-deterministic
//! initialization.

pub mod board;
pub mod life;
