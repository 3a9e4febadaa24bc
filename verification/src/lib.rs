//! A solver for the 2x2x2 pocket cube, restricted to the three generator
//! moves RIGHT, DOWN and BACK.
//!
//! A cube state is packed into a single `u64`: each of the 8 positional
//! slots occupies a 5-bit field (3 bits of piece identity, 2 bits of
//! orientation). The solver explores the state graph breadth-first from a
//! scrambled state towards the solved state and reconstructs a shortest
//! move sequence, which the notation module renders in compressed cube
//! notation.

pub mod codec;
pub mod moves;
pub mod notation;
pub mod solver;
