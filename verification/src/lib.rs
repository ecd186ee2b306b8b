//! Fuzzy selection of commands, files, context paths, tools and prompts for a chat prompt.
//!
//! The library decides which selector runs a selection takes, what each run offers, and what the
//! choices come to. Running the selector in a terminal is left to the caller: `command_flow` and
//! `prompt_flow` say what to do next and take back what came of it.
pub mod command_flow;
pub mod commands;
pub mod context;
pub mod display;
pub mod errors;
pub mod grouping;
pub mod handlers;
pub mod options;
pub mod order;
pub mod prompt_flow;
pub mod prompts;
pub mod selector;
pub mod text;
pub mod truncate;
