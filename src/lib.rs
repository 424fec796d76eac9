//! A verified Game of Life grid: a clamped-boundary cellular automaton with
//! double-buffered generation steps and a plain-text renderer.

pub mod laws;
pub mod rules;
pub mod seeder;
pub mod world;

pub use rules::life_rules;
pub use world::World;
