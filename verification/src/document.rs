//! A whole document: the grammar of a command line together with its run-time
//! instructions.

use vstd::prelude::*;
use crate::config::{CommandConfig, CommandConfigModel};
use crate::decode::command_config_of;
use crate::error::ConfigError;
use crate::json::{Json, JsonValue};
use crate::split::{extract_runtime, grammar_of, node_defect, runtime_of};

verus! {

/// What a document holds: the grammar, for the engine that matches command lines against
/// it, and the run-time instructions of its commands.
#[derive(Debug, PartialEq, Eq)]
pub struct Config {
    pub grammar: Json,
    pub command_config: CommandConfig,
}

/// The mathematical model of a [`Config`].
pub struct ConfigModel {
    pub grammar: JsonValue,
    pub command_config: CommandConfigModel,
}

impl View for Config {
    type V = ConfigModel;

    open spec fn view(&self) -> ConfigModel {
        ConfigModel { grammar: self.grammar@, command_config: self.command_config@ }
    }
}

/// The grammar and the run-time instructions that a document holds, or the reason why it
/// holds none: the first defect that keeps it from being split, else the first reason why
/// its run-time part cannot be read.
pub open spec fn config_of(document: JsonValue) -> Result<ConfigModel, ConfigError> {
    match node_defect(document) {
        Some(error) => Err(error),
        None => match command_config_of(runtime_of(document)) {
            Ok(command_config) => Ok(ConfigModel { grammar: grammar_of(document), command_config }),
            Err(error) => Err(error),
        },
    }
}

impl Config {
    /// Splits a document into its grammar and its run-time part and reads the run-time
    /// instructions from the latter.
    pub fn from_document(document: Json) -> (result: Result<Config, ConfigError>)
        ensures
            match config_of(document@) {
                Ok(model) => result matches Ok(config) && config@ == model,
                Err(error) => result matches Err(e) && e == error,
            },
    {
        let mut grammar = document;
        let runtime = match extract_runtime(&mut grammar) {
            Ok(runtime) => runtime,
            Err(error) => {
                return Err(error);
            },
        };
        match CommandConfig::from_json(&runtime) {
            Ok(command_config) => Ok(Config { grammar, command_config }),
            Err(error) => Err(error),
        }
    }
}

} // verus!
