//! Rules engine for a two-player hidden-information board game on a 6x6
//! grid, together with a Fenwick-tree-backed order-statistics set and a
//! sampling handle used for fair random placement and move selection.
pub mod board;
pub mod cell;
pub mod error;
pub mod fenwick;
pub mod geometry;
pub mod metadata;
pub mod player;
pub mod proto;
pub mod random_ai;
pub mod rng;
pub mod simulator;
