//! Commands, triggers and the table that holds them.
pub mod command_map;
pub mod commands;

use vstd::prelude::*;

verus! {

/// Why a command could not be run or changed.
#[derive(Debug, Clone, Copy, PartialEq, Eq, Structural)]
pub enum CommandError {
    NotFound,
    AlreadyRegistered,
    CommandFailed,
    NotEnoughArgs,
    NotRegistered,
    InsufficientPerms,
}

impl CommandError {
    /// The name of the error.
    pub open spec fn name_spec(self) -> Seq<char> {
        match self {
            CommandError::NotFound => "NotFound"@,
            CommandError::AlreadyRegistered => "AlreadyRegistered"@,
            CommandError::CommandFailed => "CommandFailed"@,
            CommandError::NotEnoughArgs => "NotEnoughArgs"@,
            CommandError::NotRegistered => "NotRegistered"@,
            CommandError::InsufficientPerms => "InsufficientPerms"@,
        }
    }

    /// The name of the error (what `Debug` shows).
    pub fn name(&self) -> (r: String)
        ensures
            r@ == self.name_spec(),
    {
        let s = match self {
            CommandError::NotFound => "NotFound",
            CommandError::AlreadyRegistered => "AlreadyRegistered",
            CommandError::CommandFailed => "CommandFailed",
            CommandError::NotEnoughArgs => "NotEnoughArgs",
            CommandError::NotRegistered => "NotRegistered",
            CommandError::InsufficientPerms => "InsufficientPerms",
        };
        s.to_owned()
    }
}

} // verus!
