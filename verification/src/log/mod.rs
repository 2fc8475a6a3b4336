//! Following a process's log file.
pub mod streamer;
