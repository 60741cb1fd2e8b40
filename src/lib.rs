//! A compact chess engine. Positions are always seen from the side to move
//! on a 12x12 board whose border is walls; moves are pseudo-legal, and a
//! lost king ends the game. The search is an iterative deepening MTD-bi
//! search over null-window alpha-beta with transposition tables and a
//! quiescence search.
pub mod board;
pub mod pieces;
pub mod search;
pub mod uci;
pub mod ui;
