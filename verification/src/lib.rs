//! A chess rules engine with a game-tree search, verified with Verus.
//!
//! The crate models the board and the game state, generates legal moves
//! (castling, en passant and promotion included), detects attacked squares,
//! and searches the game tree with minimax and alpha-beta pruning.
//!
//! * [`game`], [`board`]: the pieces, the board, the state of a game.
//! * [`geometry`], [`rays`]: squares, directions, and the one primitive
//!   that walks the rays of every piece.
//! * [`attack`]: whether a square is attacked, and check.
//! * [`moves`], [`legal`]: the moves by geometry, and the legal ones among
//!   them.
//! * [`position`]: what holds of every position of a game, and why legal
//!   moves keep it.
//! * [`minimax`]: the two searches and the balance of material, with the
//!   proof that pruning does not change the value found.
//! * [`theorems`], [`bounds`]: rules of the game as theorems, and bounds on
//!   the size of the game tree.
//! * [`codec`], [`json`]: positions as numbers and as JSON text.
//! * [`play`], [`board_view`], [`ui`], [`util`]: what a front end needs to
//!   decide: the end of the game, clicks, what to draw and where, waiting,
//!   and the choice among equally good moves.

pub mod attack;
pub mod board;
pub mod board_view;
pub mod bounds;
pub mod codec;
pub mod game;
pub mod geometry;
pub mod json;
pub mod legal;
pub mod minimax;
pub mod moves;
pub mod play;
pub mod position;
pub mod rays;
pub mod theorems;
pub mod ui;
pub mod util;

pub use crate::json::{get_legal_moves_for_single_piece, get_minimax_move, new_game};
