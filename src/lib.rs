//! Evolving agents: a feed-forward network whose weights are a genome, a genetic
//! algorithm that recombines genomes by fitness, and the pieces of a simulation
//! that tie the two together.

pub mod brain;
pub mod ga;
pub mod network;
pub mod rng;
pub mod simulation;
