//! The commands of the interactive prompt.
use vstd::prelude::*;

use crate::error::CliError;
use crate::text::{lowercase_text, lowercased, same_text, trim_text, trimmed};

verus! {

/// Commands accepted by the interactive prompt.
#[derive(Debug, Clone, Copy, PartialEq, Eq, Structural)]
pub enum Command {
    /// Create a node.
    CreateNode,
    /// Create a link between two nodes.
    CreateLink,
    /// List known nodes.
    GetNodes,
    /// List known links.
    GetLinks,
    /// Start a key distribution.
    Start,
    /// Stop the prompt.
    Exit,
}

/// The command that a typed line names once trimmed and put in lower case.
pub open spec fn command_of(t: Seq<char>) -> Option<Command> {
    if t == "create_node"@ {
        Some(Command::CreateNode)
    } else if t == "create_link"@ {
        Some(Command::CreateLink)
    } else if t == "get_nodes"@ {
        Some(Command::GetNodes)
    } else if t == "get_links"@ {
        Some(Command::GetLinks)
    } else if t == "start"@ {
        Some(Command::Start)
    } else if t == "exit"@ {
        Some(Command::Exit)
    } else {
        None
    }
}

impl Command {
    /// Reads a command from what the operator typed, around white space and in any case;
    /// an unknown command is refused with the normalised text.
    pub fn try_from(s: String) -> (r: Result<Command, CliError>)
        ensures
            ({
                let t = lowercased(trimmed(s@));
                match command_of(t) {
                    Some(c) => r matches Ok(cc) && cc == c,
                    None => r matches Err(CliError::NotValidCommand(x)) && x@ == t,
                }
            }),
    {
        let t = lowercase_text(trim_text(s.as_str()));
        match Command::from_normalised(t.as_str()) {
            Some(c) => Ok(c),
            None => Err(CliError::NotValidCommand(t)),
        }
    }

    /// The command that a trimmed, lower-case line names, if any.
    pub fn from_normalised(t: &str) -> (r: Option<Command>)
        ensures
            r == command_of(t@),
    {
        if same_text(t, "create_node") {
            Some(Command::CreateNode)
        } else if same_text(t, "create_link") {
            Some(Command::CreateLink)
        } else if same_text(t, "get_nodes") {
            Some(Command::GetNodes)
        } else if same_text(t, "get_links") {
            Some(Command::GetLinks)
        } else if same_text(t, "start") {
            Some(Command::Start)
        } else if same_text(t, "exit") {
            Some(Command::Exit)
        } else {
            None
        }
    }
}

} // verus!
