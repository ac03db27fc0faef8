//! The run-time instructions of a command line: which program each command launches, and
//! under which names and in which form its arguments reach that program.

use vstd::prelude::*;
use vstd::string::StringExecFns;
use crate::named::{lemma_named_stays, named, named_within};
use crate::naming::{env_var_name, to_env_var_name};

verus! {

/// How the occurrences of one argument become one environment variable.
#[derive(Debug, PartialEq, Eq)]
pub struct EnvVarConfig {
    /// The name of the variable.
    pub name: String,
    /// What stands between the values of one occurrence.
    pub value_delimiter: String,
    /// What stands between the occurrences.
    pub occurrence_delimiter: String,
}

/// The mathematical model of an [`EnvVarConfig`].
pub struct EnvVarConfigModel {
    pub name: Seq<char>,
    pub value_delimiter: Seq<char>,
    pub occurrence_delimiter: Seq<char>,
}

impl View for EnvVarConfig {
    type V = EnvVarConfigModel;

    open spec fn view(&self) -> EnvVarConfigModel {
        EnvVarConfigModel {
            name: self.name@,
            value_delimiter: self.value_delimiter@,
            occurrence_delimiter: self.occurrence_delimiter@,
        }
    }
}

/// The environment variable of an argument as a document gives it: a bare name, or a name
/// with delimiters.
#[derive(Debug, PartialEq, Eq)]
pub enum EnvVar {
    Simple(String),
    Full(EnvVarConfig),
}

/// The mathematical model of an [`EnvVar`].
pub enum EnvVarModel {
    Simple(Seq<char>),
    Full(EnvVarConfigModel),
}

impl View for EnvVar {
    type V = EnvVarModel;

    open spec fn view(&self) -> EnvVarModel {
        match self {
            EnvVar::Simple(name) => EnvVarModel::Simple(name@),
            EnvVar::Full(config) => EnvVarModel::Full(config@),
        }
    }
}

/// The run-time instructions of one argument.
#[derive(Debug, PartialEq, Eq)]
pub struct ArgConfig {
    /// The environment variable of the argument, where the document names one.
    pub env_var: Option<EnvVar>,
}

/// The mathematical model of an [`ArgConfig`].
pub struct ArgConfigModel {
    pub env_var: Option<EnvVarModel>,
}

impl View for ArgConfig {
    type V = ArgConfigModel;

    open spec fn view(&self) -> ArgConfigModel {
        ArgConfigModel {
            env_var: match self.env_var {
                Some(env_var) => Some(env_var@),
                None => None,
            },
        }
    }
}

/// The run-time instructions of one command: the program it launches where it is the
/// last command on the command line, and the instructions of its arguments and of its
/// subcommands, each under its name.
#[derive(Debug, PartialEq, Eq)]
pub struct CommandConfig {
    pub executable: Option<String>,
    pub args: Vec<(String, ArgConfig)>,
    pub subcommands: Vec<(String, CommandConfig)>,
}

/// The mathematical model of a [`CommandConfig`].
pub struct CommandConfigModel {
    pub executable: Option<Seq<char>>,
    pub args: Seq<(Seq<char>, ArgConfigModel)>,
    pub subcommands: Seq<(Seq<char>, CommandConfigModel)>,
}

/// The models of the instructions of the arguments of a command.
pub open spec fn args_view(args: Seq<(String, ArgConfig)>) -> Seq<(Seq<char>, ArgConfigModel)> {
    Seq::new(args.len(), |i: int| (args[i].0@, args[i].1@))
}

/// The model of the instructions of a command.
pub open spec fn command_config_model(config: CommandConfig) -> CommandConfigModel
    decreases config,
{
    CommandConfigModel {
        executable: match config.executable {
            Some(path) => Some(path@),
            None => None,
        },
        args: args_view(config.args@),
        subcommands: Seq::new(
            config.subcommands@.len(),
            |i: int|
                if 0 <= i < config.subcommands@.len() {
                    (config.subcommands@[i].0@, command_config_model(config.subcommands@[i].1))
                } else {
                    (
                        Seq::empty(),
                        CommandConfigModel {
                            executable: None,
                            args: Seq::empty(),
                            subcommands: Seq::empty(),
                        },
                    )
                },
        ),
    }
}

impl View for CommandConfig {
    type V = CommandConfigModel;

    open spec fn view(&self) -> CommandConfigModel {
        command_config_model(*self)
    }
}

/// The models of the instructions of the subcommands of a command.
pub open spec fn subcommands_view(subcommands: Seq<(String, CommandConfig)>) -> Seq<
    (Seq<char>, CommandConfigModel),
> {
    Seq::new(subcommands.len(), |i: int| (subcommands[i].0@, subcommands[i].1@))
}

/// The model of the instructions of a command, part by part.
pub proof fn lemma_command_config_view(config: CommandConfig)
    ensures
        config@.executable == match config.executable {
            Some(path) => Some(path@),
            None => None,
        },
        config@.args == args_view(config.args@),
        config@.subcommands == subcommands_view(config.subcommands@),
{
    assert(config@.subcommands =~= subcommands_view(config.subcommands@));
}

/// The delimiters of a variable that is given by its name alone: `;` between the values
/// of an occurrence and `,` between occurrences.
pub open spec fn simple_env_var(name: Seq<char>) -> EnvVarConfigModel {
    EnvVarConfigModel { name, value_delimiter: seq![';'], occurrence_delimiter: seq![','] }
}

/// The full form of the environment variable of an argument.
pub open spec fn env_var_config(env_var: EnvVarModel) -> EnvVarConfigModel {
    match env_var {
        EnvVarModel::Simple(name) => simple_env_var(name),
        EnvVarModel::Full(config) => config,
    }
}

/// The environment variable that an argument is passed in: the one that its instructions
/// name, else the canonical name of the argument with the default delimiters.
pub open spec fn effective_env_var(config: ArgConfigModel, arg_name: Seq<char>) -> EnvVarConfigModel {
    match config.env_var {
        Some(env_var) => env_var_config(env_var),
        None => simple_env_var(env_var_name(arg_name)),
    }
}

/// The delimiter between the values of one occurrence where none is given.
pub fn default_value_delimiter() -> (delimiter: String)
    ensures
        delimiter@ == seq![';'],
{
    proof {
        reveal_strlit(";");
    }
    assert(";"@ =~= seq![';']);
    String::from_str(";")
}

/// The delimiter between occurrences where none is given.
pub fn default_occurrence_delimiter() -> (delimiter: String)
    ensures
        delimiter@ == seq![','],
{
    proof {
        reveal_strlit(",");
    }
    assert(","@ =~= seq![',']);
    String::from_str(",")
}

impl Clone for EnvVarConfig {
    /// A copy with the same model.
    fn clone(&self) -> (copy: EnvVarConfig)
        ensures
            copy@ == self@,
    {
        EnvVarConfig {
            name: self.name.clone(),
            value_delimiter: self.value_delimiter.clone(),
            occurrence_delimiter: self.occurrence_delimiter.clone(),
        }
    }
}

impl EnvVar {
    /// The full form of this variable: a bare name gets the default delimiters.
    pub fn into_config(self) -> (config: EnvVarConfig)
        ensures
            config@ == env_var_config(self@),
    {
        match self {
            EnvVar::Simple(name) => EnvVarConfig {
                name,
                value_delimiter: default_value_delimiter(),
                occurrence_delimiter: default_occurrence_delimiter(),
            },
            EnvVar::Full(config) => config,
        }
    }
}

impl Clone for EnvVar {
    /// A copy with the same model.
    fn clone(&self) -> (copy: EnvVar)
        ensures
            copy@ == self@,
    {
        match self {
            EnvVar::Simple(name) => EnvVar::Simple(name.clone()),
            EnvVar::Full(config) => EnvVar::Full(config.clone()),
        }
    }
}

impl Clone for ArgConfig {
    /// A copy with the same model.
    fn clone(&self) -> (copy: ArgConfig)
        ensures
            copy@ == self@,
    {
        match &self.env_var {
            Some(env_var) => ArgConfig { env_var: Some(env_var.clone()) },
            None => ArgConfig { env_var: None },
        }
    }
}

impl Clone for CommandConfig {
    /// A deep copy: the copy has the same model.
    fn clone(&self) -> (copy: CommandConfig)
        ensures
            copy@ == self@,
        decreases self,
    {
        broadcast use vstd::std_specs::vec::axiom_vec_index_decreases;

        let executable = match &self.executable {
            Some(path) => Some(path.clone()),
            None => None,
        };
        let mut args: Vec<(String, ArgConfig)> = Vec::new();
        let mut i: usize = 0;
        while i < self.args.len()
            invariant
                i <= self.args.len(),
                args@.len() == i,
                forall|j: int|
                    0 <= j < i ==> args@[j].0@ == self.args@[j].0@ && args@[j].1@
                        == self.args@[j].1@,
            decreases self.args.len() - i,
        {
            args.push((self.args[i].0.clone(), self.args[i].1.clone()));
            i += 1;
        }
        let mut subcommands: Vec<(String, CommandConfig)> = Vec::new();
        let mut k: usize = 0;
        while k < self.subcommands.len()
            invariant
                k <= self.subcommands.len(),
                subcommands@.len() == k,
                forall|j: int|
                    0 <= j < k ==> subcommands@[j].0@ == self.subcommands@[j].0@
                        && subcommands@[j].1@ == self.subcommands@[j].1@,
            decreases self.subcommands.len() - k,
        {
            let name = self.subcommands[k].0.clone();
            let subcommand = self.subcommands[k].1.clone();
            subcommands.push((name, subcommand));
            k += 1;
        }
        let copy = CommandConfig { executable, args, subcommands };
        proof {
            lemma_command_config_view(*self);
            lemma_command_config_view(copy);
            assert(args_view(copy.args@) =~= args_view(self.args@));
            assert(subcommands_view(copy.subcommands@) =~= subcommands_view(self.subcommands@));
        }
        copy
    }
}

impl ArgConfig {
    /// The environment variable that the argument `arg_name` is passed in: the one named
    /// here, else the canonical name of the argument with the default delimiters.
    pub fn env_var_for(&self, arg_name: &str) -> (config: EnvVarConfig)
        ensures
            config@ == effective_env_var(self@, arg_name@),
    {
        match &self.env_var {
            Some(env_var) => env_var.clone().into_config(),
            None => EnvVar::Simple(to_env_var_name(arg_name)).into_config(),
        }
    }
}

/// The run-time instructions of the subcommand `name` of a command; the first such entry
/// where the name is listed twice.
pub fn get_subcommand_config<'a>(
    config: &'a CommandConfig,
    name: &str,
) -> (found: Option<&'a CommandConfig>)
    ensures
        match found {
            Some(subcommand) => named(config@.subcommands, name@) == Some(subcommand@),
            None => named(config@.subcommands, name@) is None,
        },
{
    proof {
        lemma_command_config_view(*config);
    }
    let wanted = String::from_str(name);
    let ghost entries = config@.subcommands;
    let mut i: usize = 0;
    while i < config.subcommands.len()
        invariant
            wanted@ == name@,
            entries == config@.subcommands,
            entries == subcommands_view(config.subcommands@),
            i <= config.subcommands.len(),
            named_within(entries, i as nat, name@) is None,
        decreases config.subcommands.len() - i,
    {
        if config.subcommands[i].0 == wanted {
            proof {
                assert(named_within(entries, (i + 1) as nat, name@) == Some(
                    config.subcommands@[i as int].1@,
                ));
                lemma_named_stays(entries, (i + 1) as nat, entries.len(), name@);
            }
            return Some(&config.subcommands[i].1);
        }
        i += 1;
    }
    None
}

/// The run-time instructions of the argument `name` of a command; the first such entry
/// where the name is listed twice.
pub fn get_arg_config<'a>(config: &'a CommandConfig, name: &str) -> (found: Option<&'a ArgConfig>)
    ensures
        match found {
            Some(arg) => named(config@.args, name@) == Some(arg@),
            None => named(config@.args, name@) is None,
        },
{
    proof {
        lemma_command_config_view(*config);
    }
    let wanted = String::from_str(name);
    let ghost entries = config@.args;
    let mut i: usize = 0;
    while i < config.args.len()
        invariant
            wanted@ == name@,
            entries == config@.args,
            entries == args_view(config.args@),
            i <= config.args.len(),
            named_within(entries, i as nat, name@) is None,
        decreases config.args.len() - i,
    {
        if config.args[i].0 == wanted {
            proof {
                assert(named_within(entries, (i + 1) as nat, name@) == Some(
                    config.args@[i as int].1@,
                ));
                lemma_named_stays(entries, (i + 1) as nat, entries.len(), name@);
            }
            return Some(&config.args[i].1);
        }
        i += 1;
    }
    None
}

} // verus!
