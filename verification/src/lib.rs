pub mod text;
pub mod gomoku;
pub mod system;
pub mod game_types;
pub mod game;
pub mod chat;
pub mod settings;
pub mod protocol;
pub mod library;
pub mod digest;
pub mod crypto;
pub mod watch;
pub mod watch_state;
pub mod numbers;
pub mod pieces;
pub mod http;
pub mod commands;
pub mod storage;
pub mod discovery;
pub mod transfer;
pub mod watch_loop;
pub mod laws;
