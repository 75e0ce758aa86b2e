//! The closed set of typed operations a protocol line can denote.

use vstd::prelude::*;

verus! {

/// A parsed protocol command.
pub enum MagicCommand {
    Summon { key: String, value: String },
    Conjure { key: String },
    Dispel { key: String },
    SendTo { target: String, value: String },
    Unknown,
}

/// The mathematical shape of a command: the same variants over character
/// sequences, used by specifications.
pub enum CommandModel {
    Summon { key: Seq<char>, value: Seq<char> },
    Conjure { key: Seq<char> },
    Dispel { key: Seq<char> },
    SendTo { target: Seq<char>, value: Seq<char> },
    Unknown,
}

impl View for MagicCommand {
    type V = CommandModel;

    open spec fn view(&self) -> CommandModel {
        match self {
            MagicCommand::Summon { key, value } => CommandModel::Summon {
                key: key@,
                value: value@,
            },
            MagicCommand::Conjure { key } => CommandModel::Conjure { key: key@ },
            MagicCommand::Dispel { key } => CommandModel::Dispel { key: key@ },
            MagicCommand::SendTo { target, value } => CommandModel::SendTo {
                target: target@,
                value: value@,
            },
            MagicCommand::Unknown => CommandModel::Unknown,
        }
    }
}

} // verus!
