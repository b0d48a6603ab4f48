//! A command tagged with the kind of server that received it.

use vstd::prelude::*;
use crate::storage::executor::command::Command;

verus! {

#[derive(Debug, Clone, Copy, PartialEq, Eq, Structural)]
pub enum AnnotatedCommandSender {
    TCP,
    HTTP,
}

pub struct AnnotatedCommand {
    pub command: Command,
    pub sender: AnnotatedCommandSender,
}

impl AnnotatedCommand {
    pub fn new(command: Command, sender: AnnotatedCommandSender) -> (result: Self)
        ensures
            result.command == command,
            result.sender == sender,
    {
        AnnotatedCommand { command, sender }
    }
}

} // verus!
