//! The grammar and the run-time part of a document have the same shape: every subcommand
//! of the one is a subcommand of the other.

use vstd::prelude::*;
use crate::config::CommandConfigModel;
use crate::config::ArgConfigModel;
use crate::decode::{
    arg_config_of, arg_configs_of, arg_configs_within, arg_entry_of, command_config_of,
    subcommand_configs_of, subcommand_configs_within, subcommand_entry_of,
};
use crate::document::config_of;
use crate::error::ConfigError;
use crate::json::{JsonValue, Members};
use crate::named::{
    lemma_named_concat, lemma_named_is_among, lemma_named_mapped, lemma_named_related,
    lemma_named_same_start, named, named_within,
};
use crate::split::{
    grammar_item, grammar_list, grammar_members, grammar_of, is_list_key, is_runtime_key,
    item_defect, items_defect, kept, lemma_defect_of_member, lemma_keys_distinct, list_defect,
    members_defect, node_defect, runtime_args, runtime_item, runtime_list, runtime_of,
    runtime_subcommands,
};

verus! {

/// The one member of an element of a list: a name with its definition.
pub open spec fn item_entry(item: JsonValue) -> (Seq<char>, JsonValue) {
    match item {
        JsonValue::Object(members) => if members.len() == 1 {
            members[0]
        } else {
            (Seq::empty(), JsonValue::Null)
        },
        _ => (Seq::empty(), JsonValue::Null),
    }
}

/// The definitions that a list holds, each under its name.
pub open spec fn listed(list: Option<JsonValue>) -> Members {
    match list {
        Some(JsonValue::Array(items)) => Seq::new(items.len(), |i: int| item_entry(items[i])),
        _ => Seq::empty(),
    }
}

/// What stands under `key` in a definition.
pub open spec fn member_of(node: JsonValue, key: Seq<char>) -> Option<JsonValue> {
    match node {
        JsonValue::Object(members) => named(members, key),
        _ => None,
    }
}

/// The subcommands of a definition, each under its name.
pub open spec fn subcommands_of(node: JsonValue) -> Members {
    listed(member_of(node, "subcommands"@))
}

/// The arguments of a definition, each under its name.
pub open spec fn arguments_of(node: JsonValue) -> Members {
    listed(member_of(node, "args"@))
}

/// The subcommand `name` of a definition.
pub open spec fn subcommand_of(node: JsonValue, name: Seq<char>) -> Option<JsonValue> {
    named(subcommands_of(node), name)
}

/// The path of subcommand names leads from a definition to a subcommand below it.
pub open spec fn reaches(node: JsonValue, path: Seq<Seq<char>>) -> bool
    decreases path.len(),
{
    if path.len() == 0 {
        true
    } else {
        match subcommand_of(node, path[0]) {
            Some(subcommand) => reaches(subcommand, path.drop_first()),
            None => false,
        }
    }
}

/// The path of subcommand names leads from the instructions of a command to those of a
/// subcommand below it.
pub open spec fn config_reaches(config: CommandConfigModel, path: Seq<Seq<char>>) -> bool
    decreases path.len(),
{
    if path.len() == 0 {
        true
    } else {
        match named(config.subcommands, path[0]) {
            Some(subcommand) => config_reaches(subcommand, path.drop_first()),
            None => false,
        }
    }
}

/// A member of the grammar of a definition is the member of the definition under the same
/// key, reduced to its grammar where it is a list of definitions. The run-time keys have
/// no member in the grammar.
pub proof fn lemma_grammar_member(members: Members, n: nat, key: Seq<char>)
    requires
        n <= members.len(),
    ensures
        named(grammar_members(members, n), key) == (if is_runtime_key(key) {
            None
        } else {
            match named_within(members, n, key) {
                Some(value) => Some(
                    if is_list_key(key) {
                        grammar_list(value)
                    } else {
                        value
                    },
                ),
                None => None,
            }
        }),
        forall|i: int|
            0 <= i < grammar_members(members, n).len() ==> !is_runtime_key(
                #[trigger] grammar_members(members, n)[i].0,
            ),
    decreases n,
{
    lemma_keys_distinct();
    if n > 0 {
        lemma_grammar_member(members, (n - 1) as nat, key);
        let before = grammar_members(members, (n - 1) as nat);
        let now = grammar_members(members, n);
        if !is_runtime_key(members[n - 1].0) {
            lemma_named_same_start(now, before, before.len(), key);
        }
    }
}

/// The run-time part of a definition holds its `executable` and its `env_var` as they
/// stood, and under `args` and `subcommands` the run-time parts of the definitions listed
/// there.
pub proof fn lemma_runtime_member(node: JsonValue)
    requires
        node is Object,
    ensures
        member_of(runtime_of(node), "executable"@) == member_of(node, "executable"@),
        member_of(runtime_of(node), "env_var"@) == member_of(node, "env_var"@),
        member_of(runtime_of(node), "args"@) == runtime_args(node),
        member_of(runtime_of(node), "subcommands"@) == runtime_subcommands(node),
{
    lemma_keys_distinct();
    let members = node->Object_0;
    let a = kept("executable"@, named(members, "executable"@));
    let b = kept("env_var"@, named(members, "env_var"@));
    let c = kept("args"@, runtime_args(node));
    let d = kept("subcommands"@, runtime_subcommands(node));
    assert(runtime_of(node) == JsonValue::Object(a + b + c + d));
    lemma_kept_member("executable"@, named(members, "executable"@));
    lemma_kept_member("env_var"@, named(members, "env_var"@));
    lemma_kept_member("args"@, runtime_args(node));
    lemma_kept_member("subcommands"@, runtime_subcommands(node));
    assert forall|key: Seq<char>| #[trigger]
        named(a + b + c + d, key) == match named(a, key) {
            Some(found) => Some(found),
            None => match named(b, key) {
                Some(found) => Some(found),
                None => match named(c, key) {
                    Some(found) => Some(found),
                    None => named(d, key),
                },
            },
        } by {
        lemma_named_concat(a, b, b.len(), key);
        lemma_named_concat(a + b, c, c.len(), key);
        lemma_named_concat(a + b + c, d, d.len(), key);
        assert((a + b).len() == a.len() + b.len());
        assert((a + b + c).len() == a.len() + b.len() + c.len());
        assert((a + b + c + d).len() == a.len() + b.len() + c.len() + d.len());
    }
}

/// What is found in the list that `kept` makes.
pub proof fn lemma_kept_member(key: Seq<char>, value: Option<JsonValue>)
    ensures
        forall|name: Seq<char>| #[trigger]
            named(kept(key, value), name) == (if name == key {
                value
            } else {
                None
            }),
{
    assert forall|name: Seq<char>| #[trigger]
        named(kept(key, value), name) == (if name == key {
            value
        } else {
            None
        }) by {
        let list = kept(key, value);
        if value is Some {
            assert(list.len() == 1);
            assert(named_within(list, 0, name) is None);
            assert(list[0] == (key, value->Some_0));
        } else {
            assert(list.len() == 0);
        }
    }
}

/// In a list without defect each element is one name with a definition without defect.
pub proof fn lemma_items_without_defect(items: Seq<JsonValue>, n: nat)
    requires
        n <= items.len(),
        items_defect(items, n) is None,
    ensures
        forall|i: int| 0 <= i < n ==> item_defect(#[trigger] items[i]) is None,
    decreases n,
{
    if n > 0 {
        lemma_items_without_defect(items, (n - 1) as nat);
    }
}

/// The definitions listed in the grammar of a list are the grammars of the definitions
/// listed, under the same names; and so for the run-time part.
pub proof fn lemma_listed_parts(list: JsonValue)
    requires
        list_defect(list) is None,
    ensures
        listed(Some(grammar_list(list))).len() == listed(Some(list)).len(),
        listed(Some(runtime_list(list))).len() == listed(Some(list)).len(),
        forall|i: int|
            0 <= i < listed(Some(list)).len() ==> {
                &&& (#[trigger] listed(Some(grammar_list(list)))[i]).0 == listed(Some(list))[i].0
                &&& listed(Some(grammar_list(list)))[i].1 == grammar_of(listed(Some(list))[i].1)
            },
        forall|i: int|
            0 <= i < listed(Some(list)).len() ==> node_defect(
                (#[trigger] listed(Some(list))[i]).1,
            ) is None,
        forall|i: int|
            0 <= i < listed(Some(list)).len() ==> {
                &&& (#[trigger] listed(Some(runtime_list(list)))[i]).0 == listed(Some(list))[i].0
                &&& listed(Some(runtime_list(list)))[i].1 == runtime_of(listed(Some(list))[i].1)
            },
{
    let items = list->Array_0;
    lemma_items_without_defect(items, items.len());
    assert forall|i: int| 0 <= i < items.len() implies {
        &&& item_entry(grammar_item(items[i])).0 == item_entry(items[i]).0
        &&& item_entry(grammar_item(items[i])).1 == grammar_of(item_entry(items[i]).1)
        &&& item_entry(runtime_item(items[i])).0 == item_entry(items[i]).0
        &&& item_entry(runtime_item(items[i])).1 == runtime_of(item_entry(items[i]).1)
        &&& node_defect(item_entry(items[i]).1) is None
    } by {
        assert(item_defect(items[i]) is None);
    }
}

/// A subcommand of the grammar of a definition is the grammar of the subcommand of that
/// name, a subcommand of its run-time part the run-time part of that subcommand; and the
/// subcommands of a definition without defect are without defect.
pub proof fn lemma_subcommand_parts(node: JsonValue, name: Seq<char>)
    requires
        node_defect(node) is None,
    ensures
        subcommand_of(grammar_of(node), name) == match subcommand_of(node, name) {
            Some(subcommand) => Some(grammar_of(subcommand)),
            None => None,
        },
        subcommand_of(runtime_of(node), name) == match subcommand_of(node, name) {
            Some(subcommand) => Some(runtime_of(subcommand)),
            None => None,
        },
        subcommand_of(node, name) matches Some(subcommand) ==> node_defect(subcommand) is None,
{
    lemma_keys_distinct();
    let key = "subcommands"@;
    let members = node->Object_0;
    lemma_grammar_member(members, members.len(), key);
    lemma_runtime_member(node);
    lemma_defect_of_member(members, members.len(), key);
    match named(members, key) {
        Some(list) => {
            lemma_listed_parts(list);
            let from = listed(Some(list));
            lemma_named_mapped(
                from,
                listed(Some(grammar_list(list))),
                |d: JsonValue| grammar_of(d),
                from.len(),
                name,
            );
            lemma_named_mapped(
                from,
                listed(Some(runtime_list(list))),
                |d: JsonValue| runtime_of(d),
                from.len(),
                name,
            );
            lemma_named_is_among(from, from.len(), name);
        },
        None => {},
    }
}

/// The grammar and the run-time part of a document have the same shape: a path of
/// subcommand names leads somewhere in the one exactly if it does in the other, and
/// exactly if it does in the document.
pub proof fn lemma_same_shape(document: JsonValue, path: Seq<Seq<char>>)
    requires
        node_defect(document) is None,
    ensures
        reaches(grammar_of(document), path) == reaches(document, path),
        reaches(runtime_of(document), path) == reaches(document, path),
    decreases path.len(),
{
    if path.len() > 0 {
        lemma_subcommand_parts(document, path[0]);
        match subcommand_of(document, path[0]) {
            Some(subcommand) => {
                lemma_same_shape(subcommand, path.drop_first());
            },
            None => {},
        }
    }
}

/// The instructions read from a list of subcommands stand under the names of the list,
/// each read from the definition of its name.
pub proof fn lemma_decoded_list(items: Seq<JsonValue>, n: nat)
    requires
        n <= items.len(),
        subcommand_configs_within(items, n) is Ok,
    ensures
        subcommand_configs_within(items, n)->Ok_0.len() == n,
        forall|i: int|
            0 <= i < n ==> {
                &&& (#[trigger] subcommand_configs_within(items, n)->Ok_0[i]).0 == item_entry(
                    items[i],
                ).0
                &&& command_config_of(item_entry(items[i]).1) == Ok::<
                    CommandConfigModel,
                    ConfigError,
                >(subcommand_configs_within(items, n)->Ok_0[i].1)
            },
    decreases n,
{
    if n > 0 {
        lemma_decoded_list(items, (n - 1) as nat);
        let before = subcommand_configs_within(items, (n - 1) as nat)->Ok_0;
        let now = subcommand_configs_within(items, n)->Ok_0;
        assert(now == before.push(subcommand_entry_of(items[n - 1])->Ok_0));
        assert forall|i: int| 0 <= i < n implies {
            &&& (#[trigger] now[i]).0 == item_entry(items[i]).0
            &&& command_config_of(item_entry(items[i]).1) == Ok::<CommandConfigModel, ConfigError>(
                now[i].1,
            )
        } by {
            if i < n - 1 {
                assert(now[i] == before[i]);
            }
        }
    }
}

/// The instructions of a command hold its subcommands under their names, each read from
/// the definition of its name.
pub proof fn lemma_decoded_subcommands(node: JsonValue, config: CommandConfigModel)
    requires
        command_config_of(node) == Ok::<CommandConfigModel, ConfigError>(config),
    ensures
        config.subcommands.len() == subcommands_of(node).len(),
        forall|i: int|
            0 <= i < config.subcommands.len() ==> {
                &&& (#[trigger] config.subcommands[i]).0 == subcommands_of(node)[i].0
                &&& command_config_of(subcommands_of(node)[i].1) == Ok::<
                    CommandConfigModel,
                    ConfigError,
                >(config.subcommands[i].1)
            },
{
    assert(subcommand_configs_of(node) == Ok::<Seq<(Seq<char>, CommandConfigModel)>, ConfigError>(
        config.subcommands,
    ));
    match member_of(node, "subcommands"@) {
        Some(JsonValue::Array(items)) => {
            lemma_decoded_list(items, items.len());
        },
        _ => {},
    }
}

/// The instructions read from a definition have its shape: a path of subcommand names
/// leads somewhere in the instructions exactly if it does in the definition.
pub proof fn lemma_config_shape(node: JsonValue, config: CommandConfigModel, path: Seq<Seq<char>>)
    requires
        command_config_of(node) == Ok::<CommandConfigModel, ConfigError>(config),
    ensures
        config_reaches(config, path) == reaches(node, path),
    decreases path.len(),
{
    if path.len() > 0 {
        lemma_decoded_subcommands(node, config);
        let from = subcommands_of(node);
        let related = |definition: JsonValue, read: CommandConfigModel|
            command_config_of(definition) == Ok::<CommandConfigModel, ConfigError>(read);
        lemma_named_related(from, config.subcommands, related, from.len(), path[0]);
        match named(from, path[0]) {
            Some(definition) => {
                let read = named(config.subcommands, path[0])->Some_0;
                assert(related(definition, read));
                lemma_config_shape(definition, read, path.drop_first());
            },
            None => {},
        }
    }
}

/// The grammar of a document and the run-time instructions read from it have the same
/// shape: every path of subcommand names that leads somewhere in the grammar leads
/// somewhere in the instructions, and the other way round.
pub proof fn lemma_document_shape(document: JsonValue, path: Seq<Seq<char>>)
    requires
        config_of(document) is Ok,
    ensures
        reaches(config_of(document)->Ok_0.grammar, path) == config_reaches(
            config_of(document)->Ok_0.command_config,
            path,
        ),
{
    lemma_same_shape(document, path);
    lemma_config_shape(runtime_of(document), config_of(document)->Ok_0.command_config, path);
}

/// An argument of the grammar of a definition is the grammar of the argument of that
/// name, an argument of its run-time part the run-time part of that argument.
pub proof fn lemma_argument_parts(node: JsonValue, name: Seq<char>)
    requires
        node_defect(node) is None,
    ensures
        named(arguments_of(grammar_of(node)), name) == match named(arguments_of(node), name) {
            Some(argument) => Some(grammar_of(argument)),
            None => None,
        },
        named(arguments_of(runtime_of(node)), name) == match named(arguments_of(node), name) {
            Some(argument) => Some(runtime_of(argument)),
            None => None,
        },
{
    lemma_keys_distinct();
    let key = "args"@;
    let members = node->Object_0;
    lemma_grammar_member(members, members.len(), key);
    lemma_runtime_member(node);
    lemma_defect_of_member(members, members.len(), key);
    match named(members, key) {
        Some(list) => {
            lemma_listed_parts(list);
            let from = listed(Some(list));
            lemma_named_mapped(
                from,
                listed(Some(grammar_list(list))),
                |d: JsonValue| grammar_of(d),
                from.len(),
                name,
            );
            if from.len() > 0 {
                lemma_named_mapped(
                    from,
                    listed(Some(runtime_list(list))),
                    |d: JsonValue| runtime_of(d),
                    from.len(),
                    name,
                );
            }
        },
        None => {},
    }
}

/// The instructions read from a list of arguments stand under the names of the list, each
/// read from the definition of its name.
pub proof fn lemma_decoded_arguments(items: Seq<JsonValue>, n: nat)
    requires
        n <= items.len(),
        arg_configs_within(items, n) is Ok,
    ensures
        arg_configs_within(items, n)->Ok_0.len() == n,
        forall|i: int|
            0 <= i < n ==> {
                &&& (#[trigger] arg_configs_within(items, n)->Ok_0[i]).0 == item_entry(items[i]).0
                &&& arg_config_of(item_entry(items[i]).1) == Ok::<ArgConfigModel, ConfigError>(
                    arg_configs_within(items, n)->Ok_0[i].1,
                )
            },
    decreases n,
{
    if n > 0 {
        lemma_decoded_arguments(items, (n - 1) as nat);
        let before = arg_configs_within(items, (n - 1) as nat)->Ok_0;
        let now = arg_configs_within(items, n)->Ok_0;
        assert(now == before.push(arg_entry_of(items[n - 1])->Ok_0));
        assert forall|i: int| 0 <= i < n implies {
            &&& (#[trigger] now[i]).0 == item_entry(items[i]).0
            &&& arg_config_of(item_entry(items[i]).1) == Ok::<ArgConfigModel, ConfigError>(
                now[i].1,
            )
        } by {
            if i < n - 1 {
                assert(now[i] == before[i]);
            }
        }
    }
}

/// Every subcommand that the grammar of a document declares has run-time instructions,
/// so the walk never looks for the instructions of a declared subcommand in vain.
pub proof fn lemma_declared_subcommand_has_config(document: JsonValue, name: Seq<char>)
    requires
        config_of(document) is Ok,
        subcommand_of(config_of(document)->Ok_0.grammar, name) is Some,
    ensures
        named(config_of(document)->Ok_0.command_config.subcommands, name) is Some,
{
    let path = seq![name];
    lemma_document_shape(document, path);
    assert(path[0] == name && path.drop_first().len() == 0);
    let below = subcommand_of(config_of(document)->Ok_0.grammar, name)->Some_0;
    assert(reaches(below, path.drop_first()));
    assert(reaches(config_of(document)->Ok_0.grammar, path));
}

/// Every argument that the grammar of a document declares has run-time instructions,
/// whether or not the document names a variable for it.
pub proof fn lemma_declared_argument_has_config(document: JsonValue, name: Seq<char>)
    requires
        config_of(document) is Ok,
        named(arguments_of(config_of(document)->Ok_0.grammar), name) is Some,
    ensures
        named(config_of(document)->Ok_0.command_config.args, name) is Some,
{
    let runtime = runtime_of(document);
    let config = config_of(document)->Ok_0.command_config;
    lemma_argument_parts(document, name);
    assert(named(arguments_of(runtime), name) is Some);
    let from = arguments_of(runtime);
    assert(arg_configs_of(member_of(runtime, "args"@)) == Ok::<
        Seq<(Seq<char>, ArgConfigModel)>,
        ConfigError,
    >(config.args));
    match member_of(runtime, "args"@) {
        Some(JsonValue::Array(items)) => {
            lemma_decoded_arguments(items, items.len());
            let related = |definition: JsonValue, read: ArgConfigModel|
                arg_config_of(definition) == Ok::<ArgConfigModel, ConfigError>(read);
            lemma_named_related(from, config.args, related, from.len(), name);
        },
        _ => {},
    }
}

} // verus!
