//! The pipeline engine of a small interactive shell.
//!
//! A line of input is cut into stages, each stage into a command and its
//! arguments; built-in commands are told apart from external ones; an output
//! redirection is resolved; and a state machine decides, step by step, which
//! file to open, which process to start with which streams, and which handle
//! to wait for. The driver around this library performs each action and
//! reports back what happened.

pub mod engine;
pub mod guarantees;
pub mod prompt;
pub mod stage;
pub mod text;
