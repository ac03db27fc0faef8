//! From the matched arguments to the program to launch: the walk down the commands that
//! were invoked, gathering the environment on the way.

use vstd::prelude::*;
use vstd::string::StringExecFns;
use crate::config::{
    effective_env_var, get_arg_config, get_subcommand_config, lemma_command_config_view,
    CommandConfig, CommandConfigModel,
};
use crate::encode::{encode_argument, encoded, occurrences_view, texts_view};
use crate::environ::EnvMap;
use crate::error::WalkError;
use crate::named::{lemma_named_stays, named, named_within};

verus! {

/// A command of the grammar: its name, the names of its arguments and its subcommands.
#[derive(Debug, PartialEq, Eq)]
pub struct CommandNode {
    pub name: String,
    pub args: Vec<String>,
    pub subcommands: Vec<CommandNode>,
}

/// The mathematical model of a [`CommandNode`].
pub struct CommandModel {
    pub name: Seq<char>,
    pub args: Seq<Seq<char>>,
    pub subcommands: Seq<CommandModel>,
}

/// The model of a command.
pub open spec fn command_model(command: CommandNode) -> CommandModel
    decreases command,
{
    CommandModel {
        name: command.name@,
        args: texts_view(command.args@),
        subcommands: Seq::new(
            command.subcommands@.len(),
            |i: int|
                if 0 <= i < command.subcommands@.len() {
                    command_model(command.subcommands@[i])
                } else {
                    CommandModel { name: Seq::empty(), args: Seq::empty(), subcommands: Seq::empty() }
                },
        ),
    }
}

impl View for CommandNode {
    type V = CommandModel;

    open spec fn view(&self) -> CommandModel {
        command_model(*self)
    }
}

/// The models of a list of commands.
pub open spec fn commands_view(commands: Seq<CommandNode>) -> Seq<CommandModel> {
    Seq::new(commands.len(), |i: int| commands[i]@)
}

/// The model of a command, part by part.
pub proof fn lemma_command_view(command: CommandNode)
    ensures
        command@.name == command.name@,
        command@.args == texts_view(command.args@),
        command@.subcommands == commands_view(command.subcommands@),
{
    assert(command@.subcommands =~= commands_view(command.subcommands@));
}

/// What the matching engine found on one level of the command line: the occurrences of
/// each argument that occurred, each occurrence with its values, and the subcommand that
/// was invoked, if one was, with what was found on its level.
#[derive(Debug, PartialEq, Eq)]
pub struct MatchResult {
    pub args: Vec<(String, Vec<Vec<String>>)>,
    pub subcommand: Option<(String, Box<MatchResult>)>,
}

/// The mathematical model of a [`MatchResult`].
pub struct MatchModel {
    pub args: Seq<(Seq<char>, Seq<Seq<Seq<char>>>)>,
    pub subcommand: Option<(Seq<char>, Box<MatchModel>)>,
}

/// The occurrences of the arguments of one level, each under the name of its argument.
pub open spec fn matched_view(args: Seq<(String, Vec<Vec<String>>)>) -> Seq<
    (Seq<char>, Seq<Seq<Seq<char>>>),
> {
    Seq::new(args.len(), |i: int| (args[i].0@, occurrences_view(args[i].1@)))
}

/// The model of what was matched.
pub open spec fn match_model(matches: MatchResult) -> MatchModel
    decreases matches,
{
    MatchModel {
        args: matched_view(matches.args@),
        subcommand: match matches.subcommand {
            Some((name, below)) => Some((name@, Box::new(match_model(*below)))),
            None => None,
        },
    }
}

impl View for MatchResult {
    type V = MatchModel;

    open spec fn view(&self) -> MatchModel {
        match_model(*self)
    }
}

/// The program to launch and the environment to launch it in.
#[derive(Debug, PartialEq, Eq)]
pub struct Launch {
    pub executable: String,
    pub env: EnvMap,
}

/// The mathematical model of a [`Launch`].
pub struct LaunchModel {
    pub executable: Seq<char>,
    pub env: Map<Seq<char>, Seq<char>>,
}

impl View for Launch {
    type V = LaunchModel;

    open spec fn view(&self) -> LaunchModel {
        LaunchModel { executable: self.executable@, env: self.env@ }
    }
}

/// The commands of a list, each under its name.
pub open spec fn by_name(commands: Seq<CommandModel>) -> Seq<(Seq<char>, CommandModel)> {
    Seq::new(commands.len(), |i: int| (commands[i].name, commands[i]))
}

/// The environment after one more argument. An argument that did not occur leaves it as
/// it is. One that occurred sets its variable, and needs run-time instructions for that.
pub open spec fn with_argument(
    before: Map<Seq<char>, Seq<char>>,
    arg_name: Seq<char>,
    matches: MatchModel,
    config: CommandConfigModel,
) -> Result<Map<Seq<char>, Seq<char>>, WalkError> {
    match named(matches.args, arg_name) {
        None => Ok(before),
        Some(occurrences) => if occurrences.len() == 0 {
            Ok(before)
        } else {
            match named(config.args, arg_name) {
                None => Err(WalkError::MissingArgConfig),
                Some(arg_config) => {
                    let env_var = effective_env_var(arg_config, arg_name);
                    Ok(before.insert(env_var.name, encoded(occurrences, env_var)->Some_0))
                },
            }
        },
    }
}

/// The variables that the first `n` arguments of a command set, taken in the order in
/// which the command declares them; or the first reason why they cannot be made.
pub open spec fn level_vars(
    arg_names: Seq<Seq<char>>,
    n: nat,
    matches: MatchModel,
    config: CommandConfigModel,
) -> Result<Map<Seq<char>, Seq<char>>, WalkError>
    decreases n,
{
    if n == 0 || n > arg_names.len() {
        Ok(Map::empty())
    } else {
        match level_vars(arg_names, (n - 1) as nat, matches, config) {
            Err(error) => Err(error),
            Ok(before) => with_argument(before, arg_names[n - 1], matches, config),
        }
    }
}

/// The variables that the arguments of one command set.
pub open spec fn command_vars(
    command: CommandModel,
    matches: MatchModel,
    config: CommandConfigModel,
) -> Result<Map<Seq<char>, Seq<char>>, WalkError> {
    level_vars(command.args, command.args.len(), matches, config)
}

/// Where the first arguments of a command cannot be turned into variables, the command's
/// arguments cannot, for the same reason.
pub proof fn lemma_level_error_stays(
    arg_names: Seq<Seq<char>>,
    n: nat,
    m: nat,
    matches: MatchModel,
    config: CommandConfigModel,
)
    requires
        n <= m <= arg_names.len(),
        level_vars(arg_names, n, matches, config) is Err,
    ensures
        level_vars(arg_names, m, matches, config) == level_vars(arg_names, n, matches, config),
    decreases m,
{
    if n < m {
        lemma_level_error_stays(arg_names, n, (m - 1) as nat, matches, config);
    }
}

/// The walk from a command down the subcommands that were invoked. On each level the
/// variables of that level are laid over the environment that came from above. Where no
/// subcommand was invoked the walk ends with the executable of the command it has reached.
pub open spec fn walk(
    command: CommandModel,
    matches: MatchModel,
    config: CommandConfigModel,
    env: Map<Seq<char>, Seq<char>>,
) -> Result<LaunchModel, WalkError>
    decreases matches,
{
    match command_vars(command, matches, config) {
        Err(error) => Err(error),
        Ok(vars) => {
            let env = env.union_prefer_right(vars);
            match matches.subcommand {
                Some((name, below)) => match named(config.subcommands, name) {
                    None => Err(WalkError::MissingSubcommandConfig),
                    Some(subconfig) => match named(by_name(command.subcommands), name) {
                        None => Err(WalkError::MissingSubcommand),
                        Some(subcommand) => walk(subcommand, *below, subconfig, env),
                    },
                },
                None => match config.executable {
                    Some(executable) => Ok(LaunchModel { executable, env }),
                    None => Err(WalkError::MissingExecutable),
                },
            }
        },
    }
}

/// The environment that the walk starts with, as a model: the variable `self` with the
/// path of the running program where that path is to be passed on, else nothing.
pub open spec fn initial_vars(own_path: Option<Seq<char>>) -> Map<Seq<char>, Seq<char>> {
    match own_path {
        Some(path) => Map::<Seq<char>, Seq<char>>::empty().insert("self"@, path),
        None => Map::empty(),
    }
}

/// Makes the environment that the walk starts with: the variable `self` with the path of
/// the running program where that path is to be passed on, else nothing.
pub fn initial_env(own_path: Option<String>) -> (env: EnvMap)
    ensures
        env@ == initial_vars(
            match own_path {
                Some(path) => Some(path@),
                None => None,
            },
        ),
{
    let mut env = EnvMap::new();
    if let Some(path) = own_path {
        env.insert(String::from_str("self"), path);
    }
    env
}

/// The subcommand `name` of a command of the grammar; the first such where the name is
/// listed twice.
pub fn get_subcommand<'a>(command: &'a CommandNode, name: &str) -> (found: Option<&'a CommandNode>)
    ensures
        match found {
            Some(subcommand) => named(by_name(command@.subcommands), name@) == Some(subcommand@),
            None => named(by_name(command@.subcommands), name@) is None,
        },
{
    proof {
        lemma_command_view(*command);
    }
    let wanted = String::from_str(name);
    let ghost entries = by_name(command@.subcommands);
    let mut i: usize = 0;
    while i < command.subcommands.len()
        invariant
            wanted@ == name@,
            entries == by_name(command@.subcommands),
            command@.subcommands == commands_view(command.subcommands@),
            i <= command.subcommands.len(),
            named_within(entries, i as nat, name@) is None,
        decreases command.subcommands.len() - i,
    {
        proof {
            lemma_command_view(command.subcommands@[i as int]);
        }
        if command.subcommands[i].name == wanted {
            proof {
                assert(named_within(entries, (i + 1) as nat, name@) == Some(
                    command.subcommands@[i as int]@,
                ));
                lemma_named_stays(entries, (i + 1) as nat, entries.len(), name@);
            }
            return Some(&command.subcommands[i]);
        }
        i += 1;
    }
    None
}

/// The occurrences of the argument `name` on one level of what was matched; the first
/// such entry where the name is listed twice.
pub fn get_raw_occurrences<'a>(
    matches: &'a MatchResult,
    name: &str,
) -> (found: Option<&'a Vec<Vec<String>>>)
    ensures
        match found {
            Some(occurrences) => named(matches@.args, name@) == Some(
                occurrences_view(occurrences@),
            ),
            None => named(matches@.args, name@) is None,
        },
{
    let wanted = String::from_str(name);
    let ghost entries = matches@.args;
    let mut i: usize = 0;
    while i < matches.args.len()
        invariant
            wanted@ == name@,
            entries == matches@.args,
            entries == matched_view(matches.args@),
            i <= matches.args.len(),
            named_within(entries, i as nat, name@) is None,
        decreases matches.args.len() - i,
    {
        if matches.args[i].0 == wanted {
            proof {
                assert(named_within(entries, (i + 1) as nat, name@) == Some(
                    occurrences_view(matches.args@[i as int].1@),
                ));
                lemma_named_stays(entries, (i + 1) as nat, entries.len(), name@);
            }
            return Some(&matches.args[i].1);
        }
        i += 1;
    }
    None
}

/// Makes the environment variables of one command from the occurrences of its arguments.
///
/// The arguments are taken in the order in which the command declares them, so where two
/// of them name the same variable the later one sets it. An argument that did not occur
/// sets nothing. One that occurred and has no run-time instructions ends the work.
pub fn create_env_vars(
    command: &CommandNode,
    args: &MatchResult,
    config: &CommandConfig,
) -> (result: Result<EnvMap, WalkError>)
    ensures
        match command_vars(command@, args@, config@) {
            Ok(vars) => result matches Ok(env) && env@ == vars,
            Err(error) => result matches Err(e) && e == error,
        },
{
    proof {
        lemma_command_view(*command);
    }
    let ghost arg_names = command@.args;
    let mut mapping = EnvMap::new();
    let mut i: usize = 0;
    while i < command.args.len()
        invariant
            arg_names == command@.args,
            arg_names == texts_view(command.args@),
            i <= command.args.len(),
            level_vars(arg_names, i as nat, args@, config@) == Ok::<
                Map<Seq<char>, Seq<char>>,
                WalkError,
            >(mapping@),
        decreases command.args.len() - i,
    {
        let arg_name = command.args[i].as_str();
        if let Some(occurrences) = get_raw_occurrences(args, arg_name) {
            if occurrences.len() > 0 {
                match get_arg_config(config, arg_name) {
                    Some(arg_config) => {
                        if let Some((name, value)) = encode_argument(
                            arg_name,
                            occurrences,
                            arg_config,
                        ) {
                            mapping.insert(name, value);
                        }
                    },
                    None => {
                        proof {
                            assert(level_vars(arg_names, (i + 1) as nat, args@, config@) is Err);
                            lemma_level_error_stays(
                                arg_names,
                                (i + 1) as nat,
                                arg_names.len(),
                                args@,
                                config@,
                            );
                        }
                        return Err(WalkError::MissingArgConfig);
                    },
                }
            }
        }
        i += 1;
    }
    Ok(mapping)
}

/// Walks from a command down the subcommands that were invoked and finds the program to
/// launch with its environment.
///
/// On each level the variables of the command's arguments are laid over the environment
/// that came from above: a variable set on a level replaces one of the same name from a
/// level above. The walk ends at the command below which no subcommand was invoked; its
/// executable is the program to launch. A subcommand or an argument that is missing from
/// the grammar or from the run-time instructions, and a last command without executable,
/// end the walk with an error.
pub fn run(
    command: &CommandNode,
    args: &MatchResult,
    config: &CommandConfig,
    env: EnvMap,
) -> (result: Result<Launch, WalkError>)
    ensures
        match walk(command@, args@, config@, env@) {
            Ok(launch) => result matches Ok(found) && found@ == launch,
            Err(error) => result matches Err(e) && e == error,
        },
    decreases args,
{
    let mut env = env;
    match create_env_vars(command, args, config) {
        Ok(env_vars) => {
            env.extend(env_vars);
        },
        Err(error) => {
            return Err(error);
        },
    }
    match &args.subcommand {
        Some((name, below)) => {
            let subconfig = match get_subcommand_config(config, name.as_str()) {
                Some(subconfig) => subconfig,
                None => {
                    return Err(WalkError::MissingSubcommandConfig);
                },
            };
            let subcommand = match get_subcommand(command, name.as_str()) {
                Some(subcommand) => subcommand,
                None => {
                    return Err(WalkError::MissingSubcommand);
                },
            };
            run(subcommand, below, subconfig, env)
        },
        None => {
            proof {
                lemma_command_config_view(*config);
            }
            match &config.executable {
                Some(executable) => Ok(Launch { executable: executable.clone(), env }),
                None => Err(WalkError::MissingExecutable),
            }
        },
    }
}

/// What the walk gathers is laid over the environment it starts with: the walk from any
/// environment fails as the walk from the empty one does, and where it ends it launches
/// the same program, in the starting environment overlaid with what the walk from the
/// empty environment gathers.
pub proof fn lemma_walk_inherits(
    command: CommandModel,
    matches: MatchModel,
    config: CommandConfigModel,
    env: Map<Seq<char>, Seq<char>>,
)
    ensures
        match walk(command, matches, config, Map::empty()) {
            Ok(gathered) => walk(command, matches, config, env) == Ok::<LaunchModel, WalkError>(
                LaunchModel {
                    executable: gathered.executable,
                    env: env.union_prefer_right(gathered.env),
                },
            ),
            Err(error) => walk(command, matches, config, env) == Err::<LaunchModel, WalkError>(
                error,
            ),
        },
    decreases matches,
{
    let empty = Map::<Seq<char>, Seq<char>>::empty();
    match command_vars(command, matches, config) {
        Err(_) => {},
        Ok(vars) => {
            assert(empty.union_prefer_right(vars) =~= vars);
            match matches.subcommand {
                Some((name, below)) => match named(config.subcommands, name) {
                    None => {},
                    Some(subconfig) => match named(by_name(command.subcommands), name) {
                        None => {},
                        Some(subcommand) => {
                            lemma_walk_inherits(subcommand, *below, subconfig, vars);
                            lemma_walk_inherits(
                                subcommand,
                                *below,
                                subconfig,
                                env.union_prefer_right(vars),
                            );
                            match walk(subcommand, *below, subconfig, empty) {
                                Ok(deeper) => {
                                    assert(env.union_prefer_right(vars).union_prefer_right(
                                        deeper.env,
                                    ) =~= env.union_prefer_right(
                                        vars.union_prefer_right(deeper.env),
                                    ));
                                },
                                Err(_) => {},
                            }
                        },
                    },
                },
                None => {},
            }
        },
    }
}

/// A variable that is set on a level below replaces the one of the same name from the
/// levels above, and from the environment that the walk started with.
pub proof fn lemma_child_overrides_parent(
    command: CommandModel,
    matches: MatchModel,
    config: CommandConfigModel,
    env: Map<Seq<char>, Seq<char>>,
    name: Seq<char>,
)
    requires
        walk(command, matches, config, env) is Ok,
        matches.subcommand is Some,
    ensures
        ({
            let invoked = matches.subcommand->Some_0;
            let subconfig = named(config.subcommands, invoked.0);
            let subcommand = named(by_name(command.subcommands), invoked.0);
            &&& subconfig is Some
            &&& subcommand is Some
            &&& walk(subcommand->Some_0, *invoked.1, subconfig->Some_0, Map::empty()) matches Ok(
                below,
            )
            &&& below.env.contains_key(name) ==> walk(command, matches, config, env)->Ok_0.env[name]
                == below.env[name]
            &&& !below.env.contains_key(name) && command_vars(
                command,
                matches,
                config,
            )->Ok_0.contains_key(name) ==> walk(command, matches, config, env)->Ok_0.env[name]
                == command_vars(command, matches, config)->Ok_0[name]
        }),
{
    let invoked = matches.subcommand->Some_0;
    let vars = command_vars(command, matches, config)->Ok_0;
    let subconfig = named(config.subcommands, invoked.0)->Some_0;
    let subcommand = named(by_name(command.subcommands), invoked.0)->Some_0;
    lemma_walk_inherits(subcommand, *invoked.1, subconfig, env.union_prefer_right(vars));
}

/// Two sets of run-time instructions say the same along the path that was invoked: on
/// each level of it they name the same executable and give the arguments the same
/// instructions. What they say of subcommands that were not invoked is left open.
pub open spec fn same_on_path(
    one: CommandConfigModel,
    other: CommandConfigModel,
    matches: MatchModel,
) -> bool
    decreases matches,
{
    &&& one.executable == other.executable
    &&& one.args == other.args
    &&& match matches.subcommand {
        None => true,
        Some((name, below)) => match (
            named(one.subcommands, name),
            named(other.subcommands, name),
        ) {
            (Some(a), Some(b)) => same_on_path(a, b, *below),
            (None, None) => true,
            _ => false,
        },
    }
}

/// Two grammars say the same along the path that was invoked: on each level of it they
/// declare the same arguments. What they say of subcommands that were not invoked is
/// left open.
pub open spec fn same_commands_on_path(
    one: CommandModel,
    other: CommandModel,
    matches: MatchModel,
) -> bool
    decreases matches,
{
    &&& one.args == other.args
    &&& match matches.subcommand {
        None => true,
        Some((name, below)) => match (
            named(by_name(one.subcommands), name),
            named(by_name(other.subcommands), name),
        ) {
            (Some(a), Some(b)) => same_commands_on_path(a, b, *below),
            (None, None) => true,
            _ => false,
        },
    }
}

/// The subcommands that were not invoked play no part: grammars and run-time
/// instructions that say the same along the invoked path give the same result.
pub proof fn lemma_siblings_play_no_part(
    command: CommandModel,
    other_command: CommandModel,
    matches: MatchModel,
    config: CommandConfigModel,
    other_config: CommandConfigModel,
    env: Map<Seq<char>, Seq<char>>,
)
    requires
        same_commands_on_path(command, other_command, matches),
        same_on_path(config, other_config, matches),
    ensures
        walk(command, matches, config, env) == walk(other_command, matches, other_config, env),
    decreases matches,
{
    lemma_level_same_args(command.args, command.args.len(), matches, config, other_config);
    match command_vars(command, matches, config) {
        Err(_) => {},
        Ok(vars) => match matches.subcommand {
            Some((name, below)) => match (
                named(config.subcommands, name),
                named(other_config.subcommands, name),
            ) {
                (Some(a), Some(b)) => match (
                    named(by_name(command.subcommands), name),
                    named(by_name(other_command.subcommands), name),
                ) {
                    (Some(c), Some(d)) => {
                        lemma_siblings_play_no_part(
                            c,
                            d,
                            *below,
                            a,
                            b,
                            env.union_prefer_right(vars),
                        );
                    },
                    _ => {},
                },
                _ => {},
            },
            None => {},
        },
    }
}

/// The variables of a level are made from the instructions of its arguments alone.
pub proof fn lemma_level_same_args(
    arg_names: Seq<Seq<char>>,
    n: nat,
    matches: MatchModel,
    one: CommandConfigModel,
    other: CommandConfigModel,
)
    requires
        one.args == other.args,
    ensures
        level_vars(arg_names, n, matches, one) == level_vars(arg_names, n, matches, other),
    decreases n,
{
    if n > 0 {
        lemma_level_same_args(arg_names, (n - 1) as nat, matches, one, other);
    }
}

} // verus!
