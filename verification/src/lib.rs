//! A verified checkers (draughts) game engine: board and move model,
//! legal-move generation under the mandatory-capture rule (with multi-jump
//! chains flattened into compound moves), a material-and-position evaluator,
//! depth-limited minimax search with alpha-beta pruning, and a small
//! orchestrator that releases a computed compound move one elementary move
//! at a time.

pub mod ai;
pub mod alphabeta;
pub mod board;
pub mod moves;
pub mod score;
pub mod state;
