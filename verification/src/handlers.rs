//! What the key bindings hold, and what a key press does to the input line.
use std::sync::Arc;
use vstd::prelude::*;
use vstd::string::*;
use crate::command_flow::command_step;
use crate::command_flow::select_command;
use crate::command_flow::CommandStep;
use crate::command_flow::CommandTurn;
use crate::commands::available_commands;
use crate::context::ContextManager;
use crate::selector::Outcome;

verus! {

/// What a key press does to the input line.
#[derive(Debug, PartialEq, Eq)]
pub enum KeyCommand {
    /// Inserts the text this many times.
    Insert(usize, String),
    /// Leaves the line as it is.
    Noop,
}

/// What the outcome of a selection does to the input line: a chosen text is inserted once; after
/// a cancelled or failed selection the line stays as it is.
pub fn key_command(outcome: Outcome) -> (command: KeyCommand)
    ensures
        match outcome {
            Ok(Some(text)) => command == KeyCommand::Insert(1, text),
            _ => command == KeyCommand::Noop,
        },
{
    match outcome {
        Ok(Some(text)) => KeyCommand::Insert(1, text),
        _ => KeyCommand::Noop,
    }
}

/// The key binding that selects a command, with what the selection needs to know.
pub struct SkimCommandSelector<Os> {
    pub os: Os,
    pub context_manager: Arc<ContextManager>,
    pub tool_names: Vec<String>,
}

impl<Os> SkimCommandSelector<Os> {
    /// A binding over the given system, context and tools.
    pub fn new(os: Os, context_manager: Arc<ContextManager>, tool_names: Vec<String>) -> (selector:
        Self)
        ensures
            selector.os == os,
            selector.context_manager == context_manager,
            selector.tool_names == tool_names,
    {
        Self { os, context_manager, tool_names }
    }

    /// What the selection of a command takes at `turn`.
    pub fn step(&self, turn: CommandTurn) -> (step: CommandStep)
        ensures
            step@ == command_step(
                available_commands(),
                self.context_manager@,
                self.tool_names.deep_view(),
                turn@,
            ),
    {
        select_command(&self.context_manager, self.tool_names.as_slice(), turn)
    }
}

/// The key binding that selects a prompt, with the two ends of the channel to the prompt servers.
pub struct PromptSelector<Sender, Receiver> {
    pub sender: Sender,
    pub receiver: Receiver,
}

impl<Sender, Receiver> PromptSelector<Sender, Receiver> {
    /// A binding over the given channel ends.
    pub fn new(sender: Sender, receiver: Receiver) -> (selector: Self)
        ensures
            selector.sender == sender,
            selector.receiver == receiver,
    {
        Self { sender, receiver }
    }
}

} // verus!
