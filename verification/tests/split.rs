use clap_bash::error::ConfigError;
use clap_bash::json::Json;
use clap_bash::split::{extract_runtime, split};

fn text(value: &str) -> Json {
    Json::Str(value.to_string())
}

fn object(members: Vec<(&str, Json)>) -> Json {
    Json::Object(members.into_iter().map(|(key, value)| (key.to_string(), value)).collect())
}

fn list(items: Vec<Json>) -> Json {
    Json::Array(items)
}

fn tool() -> Json {
    object(vec![
        ("name", text("tool")),
        ("executable", text("/bin/tool")),
        (
            "args",
            list(vec![
                object(vec![(
                    "count",
                    object(vec![("long", text("count")), ("env_var", text("COUNT"))]),
                )]),
                object(vec![("tag", object(vec![("long", text("tag"))]))]),
            ]),
        ),
        (
            "subcommands",
            list(vec![
                object(vec![("build", object(vec![("about", text("builds"))]))]),
                object(vec![(
                    "test",
                    object(vec![
                        ("executable", text("/bin/tester")),
                        (
                            "args",
                            list(vec![object(vec![(
                                "filter",
                                object(vec![
                                    (
                                        "env_var",
                                        object(vec![
                                            ("name", text("FILTER")),
                                            ("value_delimiter", text("+")),
                                        ]),
                                    ),
                                    ("num_args", Json::Number("2".to_string())),
                                ]),
                            )])]),
                        ),
                    ]),
                )]),
            ]),
        ),
    ])
}

fn tool_grammar() -> Json {
    object(vec![
        ("name", text("tool")),
        (
            "args",
            list(vec![
                object(vec![("count", object(vec![("long", text("count"))]))]),
                object(vec![("tag", object(vec![("long", text("tag"))]))]),
            ]),
        ),
        (
            "subcommands",
            list(vec![
                object(vec![("build", object(vec![("about", text("builds"))]))]),
                object(vec![(
                    "test",
                    object(vec![(
                        "args",
                        list(vec![object(vec![(
                            "filter",
                            object(vec![("num_args", Json::Number("2".to_string()))]),
                        )])]),
                    )]),
                )]),
            ]),
        ),
    ])
}

fn tool_runtime() -> Json {
    object(vec![
        ("executable", text("/bin/tool")),
        (
            "args",
            list(vec![
                object(vec![("count", object(vec![("env_var", text("COUNT"))]))]),
                object(vec![("tag", object(vec![]))]),
            ]),
        ),
        (
            "subcommands",
            list(vec![
                object(vec![("build", object(vec![]))]),
                object(vec![(
                    "test",
                    object(vec![
                        ("executable", text("/bin/tester")),
                        (
                            "args",
                            list(vec![object(vec![(
                                "filter",
                                object(vec![(
                                    "env_var",
                                    object(vec![
                                        ("name", text("FILTER")),
                                        ("value_delimiter", text("+")),
                                    ]),
                                )]),
                            )])]),
                        ),
                    ]),
                )]),
            ]),
        ),
    ])
}

fn subcommand_names(node: &Json) -> Vec<String> {
    let mut names = Vec::new();
    if let Json::Object(members) = node {
        for (key, value) in members {
            if key == "subcommands" {
                if let Json::Array(items) = value {
                    for item in items {
                        if let Json::Object(entry) = item {
                            names.push(entry[0].0.clone());
                        }
                    }
                }
                break;
            }
        }
    }
    names
}

fn subcommand(node: &Json, name: &str) -> Option<Json> {
    if let Json::Object(members) = node {
        for (key, value) in members {
            if key == "subcommands" {
                if let Json::Array(items) = value {
                    for item in items {
                        if let Json::Object(entry) = item {
                            if entry[0].0 == name {
                                return Some(entry[0].1.clone());
                            }
                        }
                    }
                }
                return None;
            }
        }
    }
    None
}

#[test]
fn document_is_split_into_grammar_and_runtime() {
    let mut document = tool();
    let runtime = extract_runtime(&mut document);
    assert_eq!(runtime, Ok(tool_runtime()));
    assert_eq!(document, tool_grammar());
}

#[test]
fn split_leaves_the_document_as_it_is() {
    let document = tool();
    assert_eq!(split(&document), Ok((tool_grammar(), tool_runtime())));
    assert_eq!(document, tool());
}

#[test]
fn subcommand_without_runtime_data_is_kept_in_the_runtime_tree() {
    let mut document = object(vec![
        ("name", text("tool")),
        ("subcommands", list(vec![object(vec![("build", object(vec![("about", text("b"))]))])])),
    ]);
    let runtime = extract_runtime(&mut document).unwrap();
    assert_eq!(
        runtime,
        object(vec![("subcommands", list(vec![object(vec![("build", object(vec![]))])]))])
    );
    assert_eq!(subcommand(&runtime, "build"), Some(object(vec![])));
    assert_eq!(subcommand_names(&document), vec!["build".to_string()]);
}

#[test]
fn grammar_and_runtime_have_the_same_subcommands() {
    let (grammar, runtime) = split(&tool()).unwrap();
    assert_eq!(subcommand_names(&grammar), vec!["build".to_string(), "test".to_string()]);
    assert_eq!(subcommand_names(&grammar), subcommand_names(&runtime));
    for name in ["build", "test"] {
        let below_grammar = subcommand(&grammar, name).unwrap();
        let below_runtime = subcommand(&runtime, name).unwrap();
        assert_eq!(subcommand_names(&below_grammar), subcommand_names(&below_runtime));
    }
    assert_eq!(subcommand(&grammar, "deploy"), None);
    assert_eq!(subcommand(&runtime, "deploy"), None);
}

#[test]
fn nested_subcommands_are_split_on_every_level() {
    let leaf = object(vec![("executable", text("/bin/leaf")), ("about", text("leaf"))]);
    let middle = object(vec![
        ("about", text("middle")),
        ("subcommands", list(vec![object(vec![("leaf", leaf)])])),
    ]);
    let document = object(vec![
        ("name", text("root")),
        ("subcommands", list(vec![object(vec![("middle", middle)])])),
    ]);
    let (grammar, runtime) = split(&document).unwrap();
    let grammar_leaf = subcommand(&subcommand(&grammar, "middle").unwrap(), "leaf").unwrap();
    let runtime_leaf = subcommand(&subcommand(&runtime, "middle").unwrap(), "leaf").unwrap();
    assert_eq!(grammar_leaf, object(vec![("about", text("leaf"))]));
    assert_eq!(runtime_leaf, object(vec![("executable", text("/bin/leaf"))]));
}

#[test]
fn grammar_keeps_no_runtime_key() {
    let (grammar, _) = split(&tool()).unwrap();
    fn holds_runtime_key(node: &Json) -> bool {
        match node {
            Json::Object(members) => members
                .iter()
                .any(|(key, value)| key == "executable" || key == "env_var" || holds_runtime_key(value)),
            Json::Array(items) => items.iter().any(holds_runtime_key),
            _ => false,
        }
    }
    assert!(!holds_runtime_key(&grammar));
}

#[test]
fn empty_object_gives_empty_parts() {
    let mut document = object(vec![]);
    assert_eq!(extract_runtime(&mut document), Ok(object(vec![])));
    assert_eq!(document, object(vec![]));
}

#[test]
fn empty_args_are_left_out_of_the_runtime_part() {
    let mut document = object(vec![("args", list(vec![])), ("subcommands", list(vec![]))]);
    let runtime = extract_runtime(&mut document);
    assert_eq!(runtime, Ok(object(vec![("subcommands", list(vec![]))])));
    assert_eq!(document, object(vec![("args", list(vec![])), ("subcommands", list(vec![]))]));
}

#[test]
fn runtime_members_come_in_a_fixed_order() {
    let mut document = object(vec![
        ("subcommands", list(vec![])),
        ("args", list(vec![object(vec![("x", object(vec![]))])])),
        ("env_var", text("E")),
        ("executable", text("/bin/x")),
    ]);
    let runtime = extract_runtime(&mut document).unwrap();
    assert_eq!(
        runtime,
        object(vec![
            ("executable", text("/bin/x")),
            ("env_var", text("E")),
            ("args", list(vec![object(vec![("x", object(vec![]))])])),
            ("subcommands", list(vec![])),
        ])
    );
    assert_eq!(
        document,
        object(vec![
            ("subcommands", list(vec![])),
            ("args", list(vec![object(vec![("x", object(vec![]))])])),
        ])
    );
}

#[test]
fn executable_of_any_shape_is_moved_as_it_is() {
    let mut document = object(vec![("executable", list(vec![Json::Bool(true), Json::Null]))]);
    let runtime = extract_runtime(&mut document);
    assert_eq!(runtime, Ok(object(vec![("executable", list(vec![Json::Bool(true), Json::Null]))])));
    assert_eq!(document, object(vec![]));
}

#[test]
fn document_that_is_no_object_is_refused() {
    for document in [Json::Null, Json::Bool(true), text("x"), list(vec![]), Json::Number("1".to_string())] {
        let mut changed = document.clone();
        assert_eq!(extract_runtime(&mut changed), Err(ConfigError::NotAnObject));
        assert_eq!(changed, document);
    }
}

#[test]
fn args_that_are_no_array_are_refused() {
    let mut document = object(vec![("executable", text("/bin/x")), ("args", object(vec![]))]);
    let before = document.clone();
    assert_eq!(extract_runtime(&mut document), Err(ConfigError::NotAnArray));
    assert_eq!(document, before);
}

#[test]
fn subcommands_that_are_no_array_are_refused() {
    let mut document = object(vec![("subcommands", text("build"))]);
    assert_eq!(extract_runtime(&mut document), Err(ConfigError::NotAnArray));
    assert_eq!(document, object(vec![("subcommands", text("build"))]));
}

#[test]
fn element_that_is_no_single_member_object_is_refused() {
    let two = object(vec![("a", object(vec![])), ("b", object(vec![]))]);
    for element in [text("a"), object(vec![]), two, Json::Null] {
        let mut document = object(vec![("args", list(vec![element]))]);
        let before = document.clone();
        assert_eq!(extract_runtime(&mut document), Err(ConfigError::NotSingleKey));
        assert_eq!(document, before);
    }
}

#[test]
fn definition_that_is_no_object_is_refused() {
    let mut document = object(vec![("subcommands", list(vec![object(vec![("build", Json::Null)])]))]);
    assert_eq!(extract_runtime(&mut document), Err(ConfigError::NotAnObject));
}

#[test]
fn first_defect_in_document_order_is_reported() {
    let mut document = object(vec![
        ("args", list(vec![object(vec![("ok", object(vec![]))]), text("bad")])),
        ("subcommands", Json::Null),
    ]);
    assert_eq!(extract_runtime(&mut document), Err(ConfigError::NotSingleKey));
    let mut document = object(vec![
        ("subcommands", Json::Null),
        ("args", list(vec![text("bad")])),
    ]);
    assert_eq!(extract_runtime(&mut document), Err(ConfigError::NotAnArray));
}

#[test]
fn defect_deep_in_the_tree_leaves_the_document_as_it_was() {
    let bad = object(vec![("executable", text("/bin/x")), ("args", text("oops"))]);
    let mut document = object(vec![
        ("executable", text("/bin/tool")),
        ("subcommands", list(vec![object(vec![("build", bad)])])),
    ]);
    let before = document.clone();
    assert_eq!(extract_runtime(&mut document), Err(ConfigError::NotAnArray));
    assert_eq!(document, before);
}

#[test]
fn first_of_two_members_with_one_key_gives_the_runtime_part() {
    let mut document = object(vec![
        ("executable", text("/bin/first")),
        ("executable", text("/bin/second")),
        ("name", text("n")),
    ]);
    let runtime = extract_runtime(&mut document);
    assert_eq!(runtime, Ok(object(vec![("executable", text("/bin/first"))])));
    assert_eq!(document, object(vec![("name", text("n"))]));
}

#[test]
fn clone_of_a_tree_is_equal_to_it() {
    let document = tool();
    assert_eq!(document.clone(), document);
}
