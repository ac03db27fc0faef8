//! Reads the run-time instructions of a command line from their JSON form.

use vstd::prelude::*;
use crate::config::{
    args_view, lemma_command_config_view, subcommands_view, ArgConfig, ArgConfigModel,
    CommandConfig, CommandConfigModel, EnvVar, EnvVarConfig, EnvVarConfigModel, EnvVarModel,
    default_occurrence_delimiter, default_value_delimiter,
};
use crate::error::ConfigError;
use crate::json::{
    find_member, items_view, lemma_array_view, lemma_object_view, members_view, Json, JsonValue,
};
use crate::named::{lemma_named_is_among, named};

verus! {

/// The program that a command names: none where `executable` is missing or null.
pub open spec fn executable_of(value: Option<JsonValue>) -> Result<Option<Seq<char>>, ConfigError> {
    match value {
        None => Ok(None),
        Some(JsonValue::Null) => Ok(None),
        Some(JsonValue::Str(path)) => Ok(Some(path)),
        Some(_) => Err(ConfigError::BadExecutable),
    }
}

/// A delimiter: the default where none is given.
pub open spec fn delimiter_of(value: Option<JsonValue>, default: Seq<char>) -> Result<
    Seq<char>,
    ConfigError,
> {
    match value {
        None => Ok(default),
        Some(JsonValue::Str(delimiter)) => Ok(delimiter),
        Some(_) => Err(ConfigError::BadEnvVar),
    }
}

/// The environment variable that an argument names: none where `env_var` is missing or
/// null, a bare name where it is a string, a name with delimiters where it is an object.
pub open spec fn env_var_of(value: Option<JsonValue>) -> Result<Option<EnvVarModel>, ConfigError> {
    match value {
        None => Ok(None),
        Some(JsonValue::Null) => Ok(None),
        Some(JsonValue::Str(name)) => Ok(Some(EnvVarModel::Simple(name))),
        Some(JsonValue::Object(members)) => match named(members, "name"@) {
            Some(JsonValue::Str(name)) => match delimiter_of(
                named(members, "value_delimiter"@),
                seq![';'],
            ) {
                Ok(value_delimiter) => match delimiter_of(
                    named(members, "occurrence_delimiter"@),
                    seq![','],
                ) {
                    Ok(occurrence_delimiter) => Ok(
                        Some(
                            EnvVarModel::Full(
                                EnvVarConfigModel { name, value_delimiter, occurrence_delimiter },
                            ),
                        ),
                    ),
                    Err(error) => Err(error),
                },
                Err(error) => Err(error),
            },
            _ => Err(ConfigError::BadEnvVar),
        },
        Some(_) => Err(ConfigError::BadEnvVar),
    }
}

/// The run-time instructions of one argument.
pub open spec fn arg_config_of(node: JsonValue) -> Result<ArgConfigModel, ConfigError> {
    match node {
        JsonValue::Object(members) => match env_var_of(named(members, "env_var"@)) {
            Ok(env_var) => Ok(ArgConfigModel { env_var }),
            Err(error) => Err(error),
        },
        _ => Err(ConfigError::NotAnObject),
    }
}

/// One element of `args`: the name of an argument with its instructions.
pub open spec fn arg_entry_of(item: JsonValue) -> Result<(Seq<char>, ArgConfigModel), ConfigError> {
    match item {
        JsonValue::Object(members) => if members.len() == 1 {
            match arg_config_of(members[0].1) {
                Ok(config) => Ok((members[0].0, config)),
                Err(error) => Err(error),
            }
        } else {
            Err(ConfigError::NotSingleKey)
        },
        _ => Err(ConfigError::NotSingleKey),
    }
}

/// The instructions of the first `n` arguments of a list, each under its name.
pub open spec fn arg_configs_within(items: Seq<JsonValue>, n: nat) -> Result<
    Seq<(Seq<char>, ArgConfigModel)>,
    ConfigError,
>
    decreases n,
{
    if n == 0 || n > items.len() {
        Ok(Seq::empty())
    } else {
        match arg_configs_within(items, (n - 1) as nat) {
            Err(error) => Err(error),
            Ok(before) => match arg_entry_of(items[n - 1]) {
                Ok(entry) => Ok(before.push(entry)),
                Err(error) => Err(error),
            },
        }
    }
}

/// The instructions of the arguments of a command: none where `args` is missing.
pub open spec fn arg_configs_of(list: Option<JsonValue>) -> Result<
    Seq<(Seq<char>, ArgConfigModel)>,
    ConfigError,
> {
    match list {
        None => Ok(Seq::empty()),
        Some(JsonValue::Array(items)) => arg_configs_within(items, items.len()),
        Some(_) => Err(ConfigError::NotAnArray),
    }
}

/// The run-time instructions that a JSON value describes, or the first thing that keeps
/// it from describing any: first in `executable`, then in `args`, then in `subcommands`.
pub open spec fn command_config_of(node: JsonValue) -> Result<CommandConfigModel, ConfigError>
    decreases node, 1nat,
{
    match node {
        JsonValue::Object(members) => match executable_of(named(members, "executable"@)) {
            Err(error) => Err(error),
            Ok(executable) => match arg_configs_of(named(members, "args"@)) {
                Err(error) => Err(error),
                Ok(args) => match subcommand_configs_of(node) {
                    Err(error) => Err(error),
                    Ok(subcommands) => Ok(CommandConfigModel { executable, args, subcommands }),
                },
            },
        },
        _ => Err(ConfigError::NotAnObject),
    }
}

/// The instructions of the subcommands of a command: none where `subcommands` is missing.
pub open spec fn subcommand_configs_of(node: JsonValue) -> Result<
    Seq<(Seq<char>, CommandConfigModel)>,
    ConfigError,
>
    decreases node, 0nat,
{
    match node {
        JsonValue::Object(members) => match named(members, "subcommands"@) {
            None => Ok(Seq::empty()),
            Some(JsonValue::Array(items)) => {
                proof {
                    lemma_named_is_among(members, members.len(), "subcommands"@);
                }
                subcommand_configs_within(items, items.len())
            },
            Some(_) => Err(ConfigError::NotAnArray),
        },
        _ => Err(ConfigError::NotAnObject),
    }
}

/// The instructions of the first `n` subcommands of a list, each under its name.
pub open spec fn subcommand_configs_within(items: Seq<JsonValue>, n: nat) -> Result<
    Seq<(Seq<char>, CommandConfigModel)>,
    ConfigError,
>
    decreases items, n,
{
    if n == 0 || n > items.len() {
        Ok(Seq::empty())
    } else {
        match subcommand_configs_within(items, (n - 1) as nat) {
            Err(error) => Err(error),
            Ok(before) => match subcommand_entry_of(items[n - 1]) {
                Ok(entry) => Ok(before.push(entry)),
                Err(error) => Err(error),
            },
        }
    }
}

/// One element of `subcommands`: the name of a subcommand with its instructions.
pub open spec fn subcommand_entry_of(item: JsonValue) -> Result<
    (Seq<char>, CommandConfigModel),
    ConfigError,
>
    decreases item,
{
    match item {
        JsonValue::Object(members) => if members.len() == 1 {
            match command_config_of(members[0].1) {
                Ok(config) => Ok((members[0].0, config)),
                Err(error) => Err(error),
            }
        } else {
            Err(ConfigError::NotSingleKey)
        },
        _ => Err(ConfigError::NotSingleKey),
    }
}

/// Where the first arguments of a list cannot be read, the list cannot, for the same reason.
pub proof fn lemma_arg_error_stays(items: Seq<JsonValue>, n: nat, m: nat)
    requires
        n <= m <= items.len(),
        arg_configs_within(items, n) is Err,
    ensures
        arg_configs_within(items, m) == arg_configs_within(items, n),
    decreases m,
{
    if n < m {
        lemma_arg_error_stays(items, n, (m - 1) as nat);
    }
}

/// Where the first subcommands of a list cannot be read, the list cannot, for the same
/// reason.
pub proof fn lemma_subcommand_error_stays(items: Seq<JsonValue>, n: nat, m: nat)
    requires
        n <= m <= items.len(),
        subcommand_configs_within(items, n) is Err,
    ensures
        subcommand_configs_within(items, m) == subcommand_configs_within(items, n),
    decreases m,
{
    if n < m {
        lemma_subcommand_error_stays(items, n, (m - 1) as nat);
    }
}

/// The model of a value that may be absent.
pub open spec fn optional_ref_value(value: Option<&Json>) -> Option<JsonValue> {
    match value {
        Some(json) => Some(json@),
        None => None,
    }
}

/// The model of a string that may be absent.
pub open spec fn optional_text(text: Option<String>) -> Option<Seq<char>> {
    match text {
        Some(text) => Some(text@),
        None => None,
    }
}

/// The model of an environment variable that may be absent.
pub open spec fn optional_env_var(env_var: Option<EnvVar>) -> Option<EnvVarModel> {
    match env_var {
        Some(env_var) => Some(env_var@),
        None => None,
    }
}

/// The member of an object that stands under `key`, if there is one.
fn get_member<'a>(members: &'a Vec<(String, Json)>, key: &str) -> (found: Option<&'a Json>)
    ensures
        optional_ref_value(found) == named(members_view(members@), key@),
{
    match find_member(members, key) {
        Some(i) => Some(&members[i].1),
        None => None,
    }
}

fn decode_executable(value: Option<&Json>) -> (result: Result<Option<String>, ConfigError>)
    ensures
        match executable_of(optional_ref_value(value)) {
            Ok(model) => result matches Ok(executable) && optional_text(executable) == model,
            Err(error) => result matches Err(e) && e == error,
        },
{
    match value {
        None => Ok(None),
        Some(Json::Null) => Ok(None),
        Some(Json::Str(path)) => Ok(Some(path.clone())),
        Some(_) => Err(ConfigError::BadExecutable),
    }
}

fn decode_delimiter(value: Option<&Json>, default: String) -> (result: Result<String, ConfigError>)
    ensures
        match delimiter_of(optional_ref_value(value), default@) {
            Ok(model) => result matches Ok(delimiter) && delimiter@ == model,
            Err(error) => result matches Err(e) && e == error,
        },
{
    match value {
        None => Ok(default),
        Some(Json::Str(delimiter)) => Ok(delimiter.clone()),
        Some(_) => Err(ConfigError::BadEnvVar),
    }
}

fn decode_env_var(value: Option<&Json>) -> (result: Result<Option<EnvVar>, ConfigError>)
    ensures
        match env_var_of(optional_ref_value(value)) {
            Ok(model) => result matches Ok(env_var) && optional_env_var(env_var) == model,
            Err(error) => result matches Err(e) && e == error,
        },
{
    match value {
        None => Ok(None),
        Some(Json::Null) => Ok(None),
        Some(Json::Str(name)) => Ok(Some(EnvVar::Simple(name.clone()))),
        Some(Json::Object(members)) => {
            proof {
                lemma_object_view(*members);
            }
            match get_member(members, "name") {
                Some(Json::Str(name)) => {
                    let value_delimiter = decode_delimiter(
                        get_member(members, "value_delimiter"),
                        default_value_delimiter(),
                    )?;
                    let occurrence_delimiter = decode_delimiter(
                        get_member(members, "occurrence_delimiter"),
                        default_occurrence_delimiter(),
                    )?;
                    Ok(
                        Some(
                            EnvVar::Full(
                                EnvVarConfig {
                                    name: name.clone(),
                                    value_delimiter,
                                    occurrence_delimiter,
                                },
                            ),
                        ),
                    )
                },
                _ => Err(ConfigError::BadEnvVar),
            }
        },
        Some(_) => Err(ConfigError::BadEnvVar),
    }
}

impl ArgConfig {
    /// Reads the run-time instructions of one argument from their JSON form.
    pub fn from_json(node: &Json) -> (result: Result<ArgConfig, ConfigError>)
        ensures
            match arg_config_of(node@) {
                Ok(model) => result matches Ok(config) && config@ == model,
                Err(error) => result matches Err(e) && e == error,
            },
    {
        match node {
            Json::Object(members) => {
                proof {
                    lemma_object_view(*members);
                }
                match decode_env_var(get_member(members, "env_var")) {
                    Ok(env_var) => Ok(ArgConfig { env_var }),
                    Err(error) => Err(error),
                }
            },
            _ => Err(ConfigError::NotAnObject),
        }
    }
}

/// Reads one element of `args`.
fn decode_arg_entry(item: &Json) -> (result: Result<(String, ArgConfig), ConfigError>)
    ensures
        match arg_entry_of(item@) {
            Ok(model) => result matches Ok(entry) && entry.0@ == model.0 && entry.1@ == model.1,
            Err(error) => result matches Err(e) && e == error,
        },
{
    match item {
        Json::Object(members) => {
            proof {
                lemma_object_view(*members);
            }
            if members.len() == 1 {
                match ArgConfig::from_json(&members[0].1) {
                    Ok(config) => Ok((members[0].0.clone(), config)),
                    Err(error) => Err(error),
                }
            } else {
                Err(ConfigError::NotSingleKey)
            }
        },
        _ => Err(ConfigError::NotSingleKey),
    }
}

/// Reads the value of `args`.
fn decode_args(list: Option<&Json>) -> (result: Result<Vec<(String, ArgConfig)>, ConfigError>)
    ensures
        match arg_configs_of(optional_ref_value(list)) {
            Ok(models) => result matches Ok(args) && args_view(args@) == models,
            Err(error) => result matches Err(e) && e == error,
        },
{
    match list {
        None => {
            let args: Vec<(String, ArgConfig)> = Vec::new();
            assert(args_view(args@) =~= Seq::empty());
            Ok(args)
        },
        Some(Json::Array(items)) => {
            proof {
                lemma_array_view(*items);
            }
            let ghost models = items_view(items@);
            let mut args: Vec<(String, ArgConfig)> = Vec::new();
            assert(args_view(args@) =~= Seq::empty());
            let mut i: usize = 0;
            while i < items.len()
                invariant
                    optional_ref_value(list) == Some(JsonValue::Array(models)),
                    models == items_view(items@),
                    i <= items.len(),
                    arg_configs_within(models, i as nat) == Ok::<
                        Seq<(Seq<char>, ArgConfigModel)>,
                        ConfigError,
                    >(args_view(args@)),
                decreases items.len() - i,
            {
                let ghost before = args@;
                match decode_arg_entry(&items[i]) {
                    Ok(entry) => {
                        args.push(entry);
                        assert(args_view(args@) =~= args_view(before).push(
                            arg_entry_of(models[i as int])->Ok_0,
                        ));
                    },
                    Err(error) => {
                        proof {
                            assert(arg_configs_within(models, (i + 1) as nat) is Err);
                            lemma_arg_error_stays(models, (i + 1) as nat, models.len());
                        }
                        return Err(error);
                    },
                }
                i += 1;
            }
            Ok(args)
        },
        Some(_) => Err(ConfigError::NotAnArray),
    }
}

/// Reads one element of `subcommands`.
fn decode_subcommand_entry(item: &Json) -> (result: Result<(String, CommandConfig), ConfigError>)
    ensures
        match subcommand_entry_of(item@) {
            Ok(model) => result matches Ok(entry) && entry.0@ == model.0 && entry.1@ == model.1,
            Err(error) => result matches Err(e) && e == error,
        },
    decreases item, 0nat,
{
    broadcast use vstd::std_specs::vec::axiom_vec_index_decreases;

    match item {
        Json::Object(members) => {
            proof {
                lemma_object_view(*members);
            }
            if members.len() == 1 {
                match CommandConfig::from_json(&members[0].1) {
                    Ok(config) => Ok((members[0].0.clone(), config)),
                    Err(error) => Err(error),
                }
            } else {
                Err(ConfigError::NotSingleKey)
            }
        },
        _ => Err(ConfigError::NotSingleKey),
    }
}

/// Reads the value of `subcommands`.
fn decode_subcommands(list: &Json) -> (result: Result<Vec<(String, CommandConfig)>, ConfigError>)
    ensures
        match list@ {
            JsonValue::Array(items) => match subcommand_configs_within(items, items.len()) {
                Ok(models) => result matches Ok(subcommands) && subcommands_view(subcommands@)
                    == models,
                Err(error) => result matches Err(e) && e == error,
            },
            _ => result matches Err(e) && e == ConfigError::NotAnArray,
        },
    decreases list, 1nat,
{
    match list {
        Json::Array(items) => {
            proof {
                lemma_array_view(*items);
            }
            let ghost models = items_view(items@);
            let mut subcommands: Vec<(String, CommandConfig)> = Vec::new();
            assert(subcommands_view(subcommands@) =~= Seq::empty());
            let mut i: usize = 0;
            while i < items.len()
                invariant
                    list is Array && list->Array_0 == *items,
                    list@ == JsonValue::Array(models),
                    models == items_view(items@),
                    i <= items.len(),
                    subcommand_configs_within(models, i as nat) == Ok::<
                        Seq<(Seq<char>, CommandConfigModel)>,
                        ConfigError,
                    >(subcommands_view(subcommands@)),
                decreases items.len() - i,
            {
                broadcast use vstd::std_specs::vec::axiom_vec_index_decreases;

                let ghost before = subcommands@;
                match decode_subcommand_entry(&items[i]) {
                    Ok(entry) => {
                        subcommands.push(entry);
                        assert(subcommands_view(subcommands@) =~= subcommands_view(before).push(
                            subcommand_entry_of(models[i as int])->Ok_0,
                        ));
                    },
                    Err(error) => {
                        proof {
                            assert(subcommand_configs_within(models, (i + 1) as nat) is Err);
                            lemma_subcommand_error_stays(models, (i + 1) as nat, models.len());
                        }
                        return Err(error);
                    },
                }
                i += 1;
            }
            Ok(subcommands)
        },
        _ => Err(ConfigError::NotAnArray),
    }
}

impl CommandConfig {
    /// Reads the run-time instructions of a command, and of all the commands below it,
    /// from their JSON form.
    ///
    /// Members that are not part of the instructions are passed over. What cannot be
    /// read is answered with the first reason why: first in `executable`, then in `args`,
    /// then in `subcommands`.
    pub fn from_json(node: &Json) -> (result: Result<CommandConfig, ConfigError>)
        ensures
            match command_config_of(node@) {
                Ok(model) => result matches Ok(config) && config@ == model,
                Err(error) => result matches Err(e) && e == error,
            },
        decreases node, 2nat,
    {
        broadcast use vstd::std_specs::vec::axiom_vec_index_decreases;

        match node {
            Json::Object(members) => {
                proof {
                    lemma_object_view(*members);
                }
                let executable = decode_executable(get_member(members, "executable"))?;
                let args = decode_args(get_member(members, "args"))?;
                let subcommands = match find_member(members, "subcommands") {
                    Some(i) => decode_subcommands(&members[i].1)?,
                    None => {
                        let none: Vec<(String, CommandConfig)> = Vec::new();
                        assert(subcommands_view(none@) =~= Seq::empty());
                        none
                    },
                };
                let config = CommandConfig { executable, args, subcommands };
                proof {
                    lemma_command_config_view(config);
                }
                Ok(config)
            },
            _ => Err(ConfigError::NotAnObject),
        }
    }
}

} // verus!
