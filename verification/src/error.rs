//! What can go wrong before the program is launched.

use vstd::prelude::*;
use vstd::string::StringExecFns;

verus! {

/// Why a document does not describe a command line and its run-time instructions.
#[derive(Clone, Copy, Debug, PartialEq, Eq, Structural)]
pub enum ConfigError {
    /// A command or an argument is described by something other than an object.
    NotAnObject,
    /// `args` or `subcommands` holds something other than an array.
    NotAnArray,
    /// An element of `args` or `subcommands` is not an object with exactly one member.
    NotSingleKey,
    /// `executable` is neither a string nor null.
    BadExecutable,
    /// `env_var` is neither a string, nor null, nor an object with a string `name` and
    /// delimiters that are strings where they are given.
    BadEnvVar,
}

/// Why the matched arguments do not lead to a program to launch.
#[derive(Clone, Copy, Debug, PartialEq, Eq, Structural)]
pub enum WalkError {
    /// An argument that occurred has no entry in the run-time instructions of its command.
    MissingArgConfig,
    /// The invoked subcommand has no run-time instructions.
    MissingSubcommandConfig,
    /// The invoked subcommand is not part of the grammar.
    MissingSubcommand,
    /// The command that was reached names no executable.
    MissingExecutable,
}

impl ConfigError {
    /// What is wrong with the document, in words.
    pub open spec fn text(self) -> Seq<char> {
        match self {
            ConfigError::NotAnObject => "a command or an argument is not described by an object"@,
            ConfigError::NotAnArray => "`args` or `subcommands` is not an array"@,
            ConfigError::NotSingleKey => "an element of `args` or `subcommands` is not an object with exactly one member"@,
            ConfigError::BadExecutable => "`executable` is not a string"@,
            ConfigError::BadEnvVar => "`env_var` is neither a name nor an object with a name and delimiters"@,
        }
    }

    /// What is wrong with the document, in words.
    pub fn message(&self) -> (message: String)
        ensures
            message@ == self.text(),
    {
        match self {
            ConfigError::NotAnObject => String::from_str(
                "a command or an argument is not described by an object",
            ),
            ConfigError::NotAnArray => String::from_str("`args` or `subcommands` is not an array"),
            ConfigError::NotSingleKey => String::from_str(
                "an element of `args` or `subcommands` is not an object with exactly one member",
            ),
            ConfigError::BadExecutable => String::from_str("`executable` is not a string"),
            ConfigError::BadEnvVar => String::from_str(
                "`env_var` is neither a name nor an object with a name and delimiters",
            ),
        }
    }
}

impl WalkError {
    /// Why nothing is launched, in words.
    pub open spec fn text(self) -> Seq<char> {
        match self {
            WalkError::MissingArgConfig => "Missing argument configuration"@,
            WalkError::MissingSubcommandConfig => "Missing subcommand configuration"@,
            WalkError::MissingSubcommand => "Missing subcommand"@,
            WalkError::MissingExecutable => "Missing executable"@,
        }
    }

    /// Why nothing is launched, in words.
    pub fn message(&self) -> (message: String)
        ensures
            message@ == self.text(),
    {
        match self {
            WalkError::MissingArgConfig => String::from_str("Missing argument configuration"),
            WalkError::MissingSubcommandConfig => String::from_str(
                "Missing subcommand configuration",
            ),
            WalkError::MissingSubcommand => String::from_str("Missing subcommand"),
            WalkError::MissingExecutable => String::from_str("Missing executable"),
        }
    }
}

} // verus!
