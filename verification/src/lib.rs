//! Verified core of a terminal Xiangqi client: settings, move history,
//! command input, engine protocol parsing, opening-book keys and board layout.

pub mod settings;
pub mod text;
pub mod screens;
pub mod history;
pub mod command;
pub mod input;
pub mod engine_info;
pub mod engine_setup;
pub mod config;
pub mod xqb;
pub mod book;
pub mod chessdb;
pub mod grid;
pub mod xiangqi;
pub mod rules;
pub mod game;
pub mod panel;
pub mod obk;
pub mod handshake;
pub mod board_text;
pub mod key_symmetry;
