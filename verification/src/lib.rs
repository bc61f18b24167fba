//! Genetic layout optimizer: evolves populations of rectangular-room
//! layouts ("chromosomes") toward compact, non-overlapping arrangements.
//!
//! The crate is organised as:
//! - [`shapes`]: integer geometry primitives (`Point`, `Rect`).
//! - [`collections`]: the growable array (`Vector`) and 2-D grid (`Matrix`)
//!   the optimizer stores its data in.
//! - [`random`]: the randomness capability threaded through every
//!   stochastic operation, with a deterministic generator for replays.
//! - [`genes`]: genes, chromosomes, and the relaxation / fitness /
//!   crossover / mutation algorithms.
//! - [`breeding`]: selection tables and the generational driver.
//! - [`rooms`]: the renderable layout a finished chromosome exports to.
//! - [`blueprint`]: compilation of room blueprints into gene templates.

pub mod blueprint;
pub mod breeding;
pub mod collections;
pub mod genes;
pub mod random;
pub mod rooms;
pub mod shapes;
