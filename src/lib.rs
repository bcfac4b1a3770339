//! The bookkeeping of an ant colony simulation: pheromones that weaken by a
//! tenth each tick and vanish when spent, and a world that ages them, lets
//! each ant leave a fresh one and moves the ants, one tick at a time.
//!
//! Positions and ants are type parameters: the geometry that moves an ant is
//! handed to `World::evolve` by the caller.

pub mod field;
pub mod world;
