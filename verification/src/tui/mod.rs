//! The interactive view: its state machine and the decisions behind each key.
pub mod app;
pub mod ui;
pub mod widgets;
