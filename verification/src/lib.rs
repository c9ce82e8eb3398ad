//! Verified core of a playing-and-learning engine for the 2048 sliding-tile
//! game: a bit-packed board with precomputed row-move tables, an expectimax
//! search over a transposition cache, and a linear value function trained by
//! temporal-difference learning on afterstates.

pub mod board;
pub mod cli_options;
pub mod engine;
pub mod lookup_table;
pub mod transposition_table;
pub mod rng;
pub mod testing;
pub mod training;
pub mod v_function;
pub mod row;

pub use board::{Board, Direction, MoveTables, SpawnProb, TileSpawn};
pub use cli_options::{OutputFormat, VFunctionChoice};
pub use engine::Engine;
pub use training::{train_td, TrainingProgress};
pub use lookup_table::LookupTable;
pub use row::Row;
pub use transposition_table::{PositionEval, TranspositionTable};
