//! Verified decision logic of two game-playing agents for a two-player
//! card-drafting game: a one-ply evaluator with terminal "rails", and a
//! Monte Carlo tree search with explicit chance nodes.
//!
//! Everything here works on plain values: the positions themselves, and the
//! floating-point scoring formulas, live outside this crate.

pub mod player;
pub mod game;
pub mod rails;
pub mod rng;
pub mod tree;
pub mod slices;
pub mod terms;
pub mod menu;
pub mod rollout;
pub mod agent;
pub mod models;
pub mod leaf;
