pub mod cli;
pub mod commands;
pub mod config;
pub mod log;
pub mod process;
pub mod seqs;
pub mod text;
pub mod tui;
