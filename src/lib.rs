//! The verified core of an AlphaZero-style self-play engine for 6x6 Othello: the board and
//! its rules, the board key used by the search maps, the dense arrays traded with the
//! predictor, and the decisions of the search and of the self-play controller that need no
//! floating point.

pub mod action;
pub mod c_array;
pub mod constant;
pub mod mcts;
pub mod othello_board;
pub mod othello_game;
pub mod player;
pub mod self_player;
pub mod thread_id;
