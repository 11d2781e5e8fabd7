pub mod bitstring;
pub mod config;
pub mod io;
pub mod nurse;
mod rng;
pub mod evaluate;
pub mod partition;
pub mod crossover;
pub mod large_neighborhood;
pub mod mutation;
pub mod parent_selection;
pub mod survivor_selection;
pub mod elitism;
pub mod initialize_population;
pub mod scramble;
pub mod genetic_algo;
pub mod island;
