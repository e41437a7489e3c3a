//! A minimal neuroevolution engine.
//!
//! A small feed-forward network is stored as a genome of 32-bit genes, each
//! gene one weighted connection between two neurons. The crate decodes genes,
//! evaluates a genome in a single ordered pass over its connections, mutates
//! genomes bit by bit, and evolves a population by truncation selection.
//!
//! Signals are opaque to the crate: the arithmetic on them, the activation
//! functions and the fitness measure come from the caller's [`Behavior`].

pub mod agent;
pub mod behavior;
pub mod codec;
pub mod error;
pub mod evaluation;
pub mod evolution;
pub mod genome;
pub mod mutation;

pub use agent::{
    create_agents, create_agents_with_fitness, Agent, HIDDEN_LIST, INPUT_LIST, OUTPUT_LIST, UNSCORED,
};
pub use behavior::Behavior;
pub use codec::{decode, Connection, Layer, Weight, MAX_MAGNITUDE, WEIGHT_SCALE};
pub use error::ConfigError;
pub use evolution::{
    evaluate_all, evolve, generation, next_generation, population_accepts, rank, refill, select, Lesson, Refill,
};
pub use genome::Genome;
pub use mutation::{mutate, mutate_with, mutation_mask, mutation_u32, MutationRate};
