//! A continuous-time, spatially explicit stochastic simulator of populations
//! on a torus, in fixed-point arithmetic.

pub mod dynamics;
pub mod engine;
pub mod geometry;
pub mod index;
pub mod individual;
pub mod messages;
pub mod population;
pub mod recorder;
pub mod sampling;
pub mod scheduler;
pub mod species;
