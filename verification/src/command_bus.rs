//! The command-bus vocabulary: parsed commands and their kinds.

use vstd::prelude::*;
use vstd::string::StringExecFns;

verus! {

/// The kind of a parsed command, used as the key under which a handler
/// registers itself on the bus.
#[derive(Hash, PartialEq, Eq, Clone, Debug)]
pub enum CommandKind {
    Greet,
    Quit,
}

/// A parsed command: a greeting carrying its text, or the order to quit.
#[derive(Clone, Debug, PartialEq)]
pub enum Command {
    Greet(String),
    Quit,
}

/// The kind a command belongs to.
pub open spec fn kind_of(c: Command) -> CommandKind {
    match c {
        Command::Greet(_) => CommandKind::Greet,
        Command::Quit => CommandKind::Quit,
    }
}

impl Command {
    pub fn get_kind(&self) -> (k: CommandKind)
        ensures
            k == kind_of(*self),
    {
        match self {
            Self::Greet(_) => CommandKind::Greet,
            Self::Quit => CommandKind::Quit,
        }
    }

    /// Parses one raw input line: the single letter `q` quits, anything else
    /// is a greeting carrying the input verbatim.
    pub fn parse(input: String) -> (c: Command)
        ensures
            c == (if input@ == "q"@ {
                Command::Quit
            } else {
                Command::Greet(input)
            }),
    {
        if input == String::from_str("q") {
            Self::Quit
        } else {
            Self::Greet(input)
        }
    }
}

} // verus!
