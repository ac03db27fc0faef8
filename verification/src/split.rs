//! Splits one document into the grammar of the command line and the run-time
//! instructions that go with it.

use vstd::prelude::*;
use crate::json::{
    items_view, lemma_array_view, lemma_object_view, members_view, optional_value, Json,
    JsonValue, Members,
};
use crate::error::ConfigError;
use crate::named::{lemma_named_is_among, named, named_within};

verus! {

/// The keys whose values are run-time instructions and leave the grammar.
pub open spec fn is_runtime_key(key: Seq<char>) -> bool {
    key == "executable"@ || key == "env_var"@
}

/// The keys whose values are lists of named definitions.
pub open spec fn is_list_key(key: Seq<char>) -> bool {
    key == "args"@ || key == "subcommands"@
}

/// The first thing, in document order, that keeps a definition from being split.
pub open spec fn node_defect(node: JsonValue) -> Option<ConfigError>
    decreases node,
{
    match node {
        JsonValue::Object(members) => members_defect(members, members.len()),
        _ => Some(ConfigError::NotAnObject),
    }
}

/// The first defect among the first `n` members of a definition.
pub open spec fn members_defect(members: Members, n: nat) -> Option<ConfigError>
    decreases members, n,
{
    if n == 0 || n > members.len() {
        None
    } else {
        match members_defect(members, (n - 1) as nat) {
            Some(error) => Some(error),
            None => if is_list_key(members[n - 1].0) {
                list_defect(members[n - 1].1)
            } else {
                None
            },
        }
    }
}

/// The first defect of a list of named definitions.
pub open spec fn list_defect(list: JsonValue) -> Option<ConfigError>
    decreases list,
{
    match list {
        JsonValue::Array(items) => items_defect(items, items.len()),
        _ => Some(ConfigError::NotAnArray),
    }
}

/// The first defect among the first `n` elements of a list.
pub open spec fn items_defect(items: Seq<JsonValue>, n: nat) -> Option<ConfigError>
    decreases items, n,
{
    if n == 0 || n > items.len() {
        None
    } else {
        match items_defect(items, (n - 1) as nat) {
            Some(error) => Some(error),
            None => item_defect(items[n - 1]),
        }
    }
}

/// The first defect of one element of a list: it must be an object with one member,
/// whose value is a definition.
pub open spec fn item_defect(item: JsonValue) -> Option<ConfigError>
    decreases item,
{
    match item {
        JsonValue::Object(members) => if members.len() == 1 {
            node_defect(members[0].1)
        } else {
            Some(ConfigError::NotSingleKey)
        },
        _ => Some(ConfigError::NotSingleKey),
    }
}

/// The grammar part of a definition: the definition without its run-time keys, and with
/// the definitions listed under `args` and `subcommands` reduced in the same way.
pub open spec fn grammar_of(node: JsonValue) -> JsonValue
    decreases node,
{
    match node {
        JsonValue::Object(members) => JsonValue::Object(grammar_members(members, members.len())),
        _ => node,
    }
}

/// The grammar members that the first `n` members of a definition give.
pub open spec fn grammar_members(members: Members, n: nat) -> Members
    decreases members, n,
{
    if n == 0 || n > members.len() {
        Seq::empty()
    } else {
        let before = grammar_members(members, (n - 1) as nat);
        let key = members[n - 1].0;
        if is_runtime_key(key) {
            before
        } else if is_list_key(key) {
            before.push((key, grammar_list(members[n - 1].1)))
        } else {
            before.push(members[n - 1])
        }
    }
}

/// The grammar part of a list of named definitions.
pub open spec fn grammar_list(list: JsonValue) -> JsonValue
    decreases list,
{
    match list {
        JsonValue::Array(items) => JsonValue::Array(
            Seq::new(
                items.len(),
                |i: int|
                    if 0 <= i < items.len() {
                        grammar_item(items[i])
                    } else {
                        JsonValue::Null
                    },
            ),
        ),
        _ => list,
    }
}

/// The grammar part of one named definition.
pub open spec fn grammar_item(item: JsonValue) -> JsonValue
    decreases item,
{
    match item {
        JsonValue::Object(members) => if members.len() == 1 {
            JsonValue::Object(seq![(members[0].0, grammar_of(members[0].1))])
        } else {
            item
        },
        _ => item,
    }
}

/// One member under `key` where there is a value, none where there is not.
pub open spec fn kept(key: Seq<char>, value: Option<JsonValue>) -> Members {
    match value {
        Some(value) => seq![(key, value)],
        None => Seq::empty(),
    }
}

/// The run-time part of a definition: its `executable` and `env_var` as they stand, then
/// the run-time parts of its arguments where it has any, then those of its subcommands
/// where it lists any.
pub open spec fn runtime_of(node: JsonValue) -> JsonValue
    decreases node, 1nat,
{
    match node {
        JsonValue::Object(members) => JsonValue::Object(
            kept("executable"@, named(members, "executable"@)) + kept(
                "env_var"@,
                named(members, "env_var"@),
            ) + kept("args"@, runtime_args(node)) + kept(
                "subcommands"@,
                runtime_subcommands(node),
            ),
        ),
        _ => JsonValue::Null,
    }
}

/// The run-time parts of the arguments of a definition, where it has an argument.
pub open spec fn runtime_args(node: JsonValue) -> Option<JsonValue>
    decreases node, 0nat,
{
    match node {
        JsonValue::Object(members) => {
            match named(members, "args"@) {
                Some(JsonValue::Array(items)) => {
                    if items.len() > 0 {
                        proof {
                            lemma_named_is_among(members, members.len(), "args"@);
                        }
                        Some(runtime_list(JsonValue::Array(items)))
                    } else {
                        None
                    }
                },
                _ => None,
            }
        },
        _ => None,
    }
}

/// The run-time parts of the subcommands of a definition, where it lists subcommands.
pub open spec fn runtime_subcommands(node: JsonValue) -> Option<JsonValue>
    decreases node, 0nat,
{
    match node {
        JsonValue::Object(members) => {
            match named(members, "subcommands"@) {
                Some(JsonValue::Array(items)) => {
                    proof {
                        lemma_named_is_among(members, members.len(), "subcommands"@);
                    }
                    Some(runtime_list(JsonValue::Array(items)))
                },
                _ => None,
            }
        },
        _ => None,
    }
}

/// The run-time parts of the elements of a list, each under its own name.
pub open spec fn runtime_list(list: JsonValue) -> JsonValue
    decreases list,
{
    match list {
        JsonValue::Array(items) => JsonValue::Array(
            Seq::new(
                items.len(),
                |i: int|
                    if 0 <= i < items.len() {
                        runtime_item(items[i])
                    } else {
                        JsonValue::Null
                    },
            ),
        ),
        _ => JsonValue::Null,
    }
}

/// The run-time part of one named definition.
pub open spec fn runtime_item(item: JsonValue) -> JsonValue
    decreases item,
{
    match item {
        JsonValue::Object(members) => if members.len() == 1 {
            JsonValue::Object(seq![(members[0].0, runtime_of(members[0].1))])
        } else {
            JsonValue::Null
        },
        _ => JsonValue::Null,
    }
}

/// The four keys that the splitter knows are different from one another.
pub proof fn lemma_keys_distinct()
    ensures
        "executable"@ != "env_var"@,
        "executable"@ != "args"@,
        "executable"@ != "subcommands"@,
        "env_var"@ != "args"@,
        "env_var"@ != "subcommands"@,
        "args"@ != "subcommands"@,
{
    reveal_strlit("executable");
    reveal_strlit("env_var");
    reveal_strlit("args");
    reveal_strlit("subcommands");
    assert("executable"@.len() == 10);
    assert("env_var"@.len() == 7);
    assert("args"@.len() == 4);
    assert("subcommands"@.len() == 11);
}

/// The run-time part of a list that may be absent.
pub open spec fn optional_runtime_list(list: Option<JsonValue>) -> Option<JsonValue> {
    match list {
        Some(list) => Some(runtime_list(list)),
        None => None,
    }
}

/// Whether a value is an array with at least one item.
fn has_items(json: &Json) -> (answer: bool)
    ensures
        answer == (json@ matches JsonValue::Array(items) && items.len() > 0),
{
    match json {
        Json::Array(items) => {
            proof {
                lemma_array_view(*items);
            }
            items.len() > 0
        },
        _ => false,
    }
}

/// An object with the one member `name`.
fn single_member(name: &String, value: Json) -> (object: Json)
    ensures
        object@ == JsonValue::Object(seq![(name@, value@)]),
{
    let mut members: Vec<(String, Json)> = Vec::new();
    members.push((name.clone(), value));
    proof {
        lemma_object_view(members);
        assert(members_view(members@) =~= seq![(name@, value@)]);
    }
    Json::Object(members)
}

/// Splits one element of `args` or of `subcommands` into its grammar and its run-time part.
fn split_item(item: &Json) -> (result: Result<(Json, Json), ConfigError>)
    ensures
        match result {
            Ok((grammar, runtime)) => {
                &&& item_defect(item@) is None
                &&& grammar@ == grammar_item(item@)
                &&& runtime@ == runtime_item(item@)
            },
            Err(error) => item_defect(item@) == Some(error),
        },
    decreases item, 0nat,
{
    broadcast use vstd::std_specs::vec::axiom_vec_index_decreases;

    match item {
        Json::Object(members) => {
            proof {
                lemma_object_view(*members);
            }
            if members.len() == 1 {
                match split(&members[0].1) {
                    Ok((grammar, runtime)) => Ok(
                        (single_member(&members[0].0, grammar), single_member(&members[0].0, runtime)),
                    ),
                    Err(error) => Err(error),
                }
            } else {
                Err(ConfigError::NotSingleKey)
            }
        },
        _ => Err(ConfigError::NotSingleKey),
    }
}

/// Splits the value of `args` or of `subcommands` into its grammar and its run-time part.
fn split_list(list: &Json) -> (result: Result<(Json, Json), ConfigError>)
    ensures
        match result {
            Ok((grammar, runtime)) => {
                &&& list_defect(list@) is None
                &&& grammar@ == grammar_list(list@)
                &&& runtime@ == runtime_list(list@)
            },
            Err(error) => list_defect(list@) == Some(error),
        },
    decreases list, 1nat,
{
    match list {
        Json::Array(items) => {
            proof {
                lemma_array_view(*items);
            }
            let ghost models = items_view(items@);
            let mut grammar: Vec<Json> = Vec::new();
            let mut runtime: Vec<Json> = Vec::new();
            let mut i: usize = 0;
            while i < items.len()
                invariant
                    list is Array && list->Array_0 == *items,
                    list@ == JsonValue::Array(models),
                    models == items_view(items@),
                    i <= items.len(),
                    items_defect(models, i as nat) is None,
                    grammar@.len() == i,
                    runtime@.len() == i,
                    forall|j: int| 0 <= j < i ==> grammar@[j]@ == grammar_item(#[trigger] models[j]),
                    forall|j: int| 0 <= j < i ==> runtime@[j]@ == runtime_item(#[trigger] models[j]),
                decreases items.len() - i,
            {
                broadcast use vstd::std_specs::vec::axiom_vec_index_decreases;

                match split_item(&items[i]) {
                    Ok((g, r)) => {
                        grammar.push(g);
                        runtime.push(r);
                    },
                    Err(error) => {
                        proof {
                            assert(items_defect(models, (i + 1) as nat) == Some(error));
                            lemma_items_defect_stays(models, (i + 1) as nat, models.len());
                        }
                        return Err(error);
                    },
                }
                i += 1;
            }
            proof {
                lemma_array_view(grammar);
                lemma_array_view(runtime);
                assert(items_view(grammar@) =~= grammar_list(list@)->Array_0);
                assert(items_view(runtime@) =~= runtime_list(list@)->Array_0);
            }
            Ok((Json::Array(grammar), Json::Array(runtime)))
        },
        _ => Err(ConfigError::NotAnArray),
    }
}

/// A defect among the first elements of a list is the list's first defect.
pub proof fn lemma_items_defect_stays(items: Seq<JsonValue>, n: nat, m: nat)
    requires
        n <= m <= items.len(),
        items_defect(items, n) is Some,
    ensures
        items_defect(items, m) == items_defect(items, n),
    decreases m,
{
    if n < m {
        lemma_items_defect_stays(items, n, (m - 1) as nat);
    }
}

/// A defect among the first members of a definition is the definition's first defect.
pub proof fn lemma_members_defect_stays(members: Members, n: nat, m: nat)
    requires
        n <= m <= members.len(),
        members_defect(members, n) is Some,
    ensures
        members_defect(members, m) == members_defect(members, n),
    decreases m,
{
    if n < m {
        lemma_members_defect_stays(members, n, (m - 1) as nat);
    }
}

/// Splits a definition into its grammar and its run-time part, leaving the definition as
/// it is.
///
/// A definition that cannot be split is answered with its first defect in document order.
pub fn split(node: &Json) -> (result: Result<(Json, Json), ConfigError>)
    ensures
        match result {
            Ok((grammar, runtime)) => {
                &&& node_defect(node@) is None
                &&& grammar@ == grammar_of(node@)
                &&& runtime@ == runtime_of(node@)
            },
            Err(error) => node_defect(node@) == Some(error),
        },
    decreases node, 2nat,
{
    match node {
        Json::Object(members) => {
            proof {
                lemma_object_view(*members);
                lemma_keys_distinct();
            }
            let ghost models = members_view(members@);
            let executable_key = String::from_str("executable");
            let env_var_key = String::from_str("env_var");
            let args_key = String::from_str("args");
            let subcommands_key = String::from_str("subcommands");
            let mut grammar: Vec<(String, Json)> = Vec::new();
            let mut executable: Option<Json> = None;
            let mut env_var: Option<Json> = None;
            let mut args: Option<Json> = None;
            let mut subcommands: Option<Json> = None;
            let mut i: usize = 0;
            while i < members.len()
                invariant
                    node is Object && node->Object_0 == *members,
                    node@ == JsonValue::Object(models),
                    models == members_view(members@),
                    executable_key@ == "executable"@,
                    env_var_key@ == "env_var"@,
                    args_key@ == "args"@,
                    subcommands_key@ == "subcommands"@,
                    i <= members.len(),
                    members_defect(models, i as nat) is None,
                    members_view(grammar@) == grammar_members(models, i as nat),
                    optional_value(executable) == named_within(models, i as nat, "executable"@),
                    optional_value(env_var) == named_within(models, i as nat, "env_var"@),
                    optional_value(args) == optional_runtime_list(
                        named_within(models, i as nat, "args"@),
                    ),
                    optional_value(subcommands) == optional_runtime_list(
                        named_within(models, i as nat, "subcommands"@),
                    ),
                decreases members.len() - i,
            {
                broadcast use vstd::std_specs::vec::axiom_vec_index_decreases;

                proof {
                    lemma_keys_distinct();
                }
                let key = &members[i].0;
                let value = &members[i].1;
                let ghost before = grammar@;
                if *key == executable_key {
                    if executable.is_none() {
                        executable = Some(value.clone());
                    }
                } else if *key == env_var_key {
                    if env_var.is_none() {
                        env_var = Some(value.clone());
                    }
                } else if *key == args_key || *key == subcommands_key {
                    match split_list(value) {
                        Ok((g, r)) => {
                            grammar.push((key.clone(), g));
                            if *key == args_key {
                                if args.is_none() {
                                    args = Some(r);
                                }
                            } else if subcommands.is_none() {
                                subcommands = Some(r);
                            }
                        },
                        Err(error) => {
                            proof {
                                assert(members_defect(models, (i + 1) as nat) == Some(error));
                                lemma_members_defect_stays(models, (i + 1) as nat, models.len());
                            }
                            return Err(error);
                        },
                    }
                    assert(members_view(grammar@) =~= members_view(before).push(
                        (key@, grammar_list(value@)),
                    ));
                } else {
                    grammar.push((key.clone(), value.clone()));
                    assert(members_view(grammar@) =~= members_view(before).push(models[i as int]));
                }
                i += 1;
            }
            let mut runtime: Vec<(String, Json)> = Vec::new();
            if let Some(value) = executable {
                runtime.push((executable_key, value));
            }
            assert(members_view(runtime@) =~= kept("executable"@, named(models, "executable"@)));
            let ghost first = runtime@;
            if let Some(value) = env_var {
                runtime.push((env_var_key, value));
            }
            assert(members_view(runtime@) =~= members_view(first) + kept(
                "env_var"@,
                named(models, "env_var"@),
            ));
            let ghost second = runtime@;
            proof {
                lemma_defect_of_member(models, models.len(), "args"@);
            }
            if let Some(list) = args {
                let ghost source = named(models, "args"@)->Some_0;
                assert(source is Array);
                assert(list@ == runtime_list(source));
                if has_items(&list) {
                    runtime.push((args_key, list));
                }
            }
            assert(members_view(runtime@) =~= members_view(second) + kept(
                "args"@,
                runtime_args(node@),
            ));
            let ghost third = runtime@;
            if let Some(list) = subcommands {
                runtime.push((subcommands_key, list));
            }
            proof {
                lemma_defect_of_member(models, models.len(), "subcommands"@);
            }
            assert(members_view(runtime@) =~= members_view(third) + kept(
                "subcommands"@,
                runtime_subcommands(node@),
            ));
            proof {
                lemma_object_view(grammar);
                lemma_object_view(runtime);
            }
            Ok((Json::Object(grammar), Json::Object(runtime)))
        },
        _ => Err(ConfigError::NotAnObject),
    }
}

/// In a definition without defect, what stands under `args` or `subcommands` is a list
/// without defect.
pub proof fn lemma_defect_of_member(members: Members, n: nat, key: Seq<char>)
    requires
        n <= members.len(),
        is_list_key(key),
        members_defect(members, n) is None,
    ensures
        named_within(members, n, key) matches Some(list) ==> list_defect(list) is None,
    decreases n,
{
    if n > 0 {
        lemma_defect_of_member(members, (n - 1) as nat, key);
    }
}

/// Takes the run-time instructions out of a document.
///
/// The document is left holding the grammar alone, and its run-time part is returned.
/// A document that cannot be split is left as it was, and the answer is its first
/// defect in document order.
pub fn extract_runtime(v: &mut Json) -> (result: Result<Json, ConfigError>)
    ensures
        match result {
            Ok(runtime) => {
                &&& node_defect(old(v)@) is None
                &&& runtime@ == runtime_of(old(v)@)
                &&& final(v)@ == grammar_of(old(v)@)
            },
            Err(error) => {
                &&& node_defect(old(v)@) == Some(error)
                &&& *final(v) == *old(v)
            },
        },
{
    match split(v) {
        Ok((grammar, runtime)) => {
            *v = grammar;
            Ok(runtime)
        },
        Err(error) => Err(error),
    }
}

} // verus!
