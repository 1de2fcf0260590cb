pub mod gene;
pub mod population;
pub mod rng;
