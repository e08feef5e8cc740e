//! Simulation core of a tower-defense game on a hexagonal grid: board
//! topology, path recomputation around obstacles, tower damage overlays,
//! enemy lifecycle, command decoding, and the economy state machine.
#![verifier::loop_isolation(false)]
pub mod board;
pub mod communication;
pub mod components;
pub mod config;
pub mod enemies;
pub mod grid;
pub mod hex;
pub mod laws;
mod rng;
pub mod sim;
pub mod tiles;
pub mod towers;
